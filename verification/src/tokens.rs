//! Lexical tokens of the binding language, the lexer, and the renderer
//! that turns token sequences back into source text.

use vstd::prelude::*;

use crate::errors::Error;

verus! {

/// Keywords that the grammar and the renderer treat specially.
#[derive(Clone, Copy, PartialEq, Eq, Structural, Debug)]
pub enum Kw {
    Fn,
    Pub,
    SelfLower,
    Mut,
    Impl,
    Unsafe,
}

/// One lexical token.  Identifier, digit and string tokens keep the bytes
/// they were written with.
#[derive(Debug)]
pub enum Tok {
    /// An identifier or path segment.
    Ident(Vec<u8>),
    /// A recognized keyword.
    Kw(Kw),
    /// An integer literal, kept as its decimal digits.
    Int(Vec<u8>),
    /// A string literal, kept as the raw bytes between the quotes.
    Str(Vec<u8>),
    /// A single punctuation byte.
    Punct(u8),
    /// A two-byte operator such as `->`, `=>` or `::`.
    Op2(u8, u8),
}

/// The mathematical value of a token.
pub enum TokV {
    Ident(Seq<u8>),
    Kw(Kw),
    Int(Seq<u8>),
    Str(Seq<u8>),
    Punct(u8),
    Op2(u8, u8),
}

impl View for Tok {
    type V = TokV;

    open spec fn view(&self) -> TokV {
        match self {
            Tok::Ident(v) => TokV::Ident(v@),
            Tok::Kw(k) => TokV::Kw(*k),
            Tok::Int(v) => TokV::Int(v@),
            Tok::Str(v) => TokV::Str(v@),
            Tok::Punct(b) => TokV::Punct(*b),
            Tok::Op2(a, b) => TokV::Op2(*a, *b),
        }
    }
}

/// The value of a token sequence.
pub open spec fn toks_view(ts: Seq<Tok>) -> Seq<TokV> {
    ts.map_values(|t: Tok| t@)
}

// ---------------------------------------------------------------------------
// Byte classes
// ---------------------------------------------------------------------------

pub open spec fn is_ws(b: u8) -> bool {
    b == 32 || b == 9 || b == 10 || b == 13
}

pub open spec fn is_digit(b: u8) -> bool {
    48 <= b && b <= 57
}

pub open spec fn is_ident_start(b: u8) -> bool {
    (65 <= b && b <= 90) || (97 <= b && b <= 122) || b == 95
}

pub open spec fn is_ident_cont(b: u8) -> bool {
    is_ident_start(b) || is_digit(b)
}

/// The two-byte operators recognized as one token: `->` `=>` `::` `==` `!=`
/// `<=` `>=` `&&` `||`.  Shifts are deliberately absent so that nested
/// generic arguments close with two separate `>` tokens.
pub open spec fn is_op2(a: u8, b: u8) -> bool {
    ||| (a == 45 && b == 62)
    ||| (a == 61 && b == 62)
    ||| (a == 58 && b == 58)
    ||| (a == 61 && b == 61)
    ||| (a == 33 && b == 61)
    ||| (a == 60 && b == 61)
    ||| (a == 62 && b == 61)
    ||| (a == 38 && b == 38)
    ||| (a == 124 && b == 124)
}

/// Printable bytes that stand alone as punctuation tokens.
pub open spec fn is_punct_byte(b: u8) -> bool {
    33 <= b && b <= 126 && !is_ident_cont(b) && b != 34
}

fn is_ws_x(b: u8) -> (r: bool)
    ensures
        r == is_ws(b),
{
    b == 32 || b == 9 || b == 10 || b == 13
}

fn is_digit_x(b: u8) -> (r: bool)
    ensures
        r == is_digit(b),
{
    48 <= b && b <= 57
}

fn is_ident_start_x(b: u8) -> (r: bool)
    ensures
        r == is_ident_start(b),
{
    (65 <= b && b <= 90) || (97 <= b && b <= 122) || b == 95
}

fn is_ident_cont_x(b: u8) -> (r: bool)
    ensures
        r == is_ident_cont(b),
{
    is_ident_start_x(b) || is_digit_x(b)
}

fn is_op2_x(a: u8, b: u8) -> (r: bool)
    ensures
        r == is_op2(a, b),
{
    (a == 45 && b == 62) || (a == 61 && b == 62) || (a == 58 && b == 58) || (a == 61 && b == 61)
        || (a == 33 && b == 61) || (a == 60 && b == 61) || (a == 62 && b == 61) || (a == 38 && b
        == 38) || (a == 124 && b == 124)
}

fn is_punct_byte_x(b: u8) -> (r: bool)
    ensures
        r == is_punct_byte(b),
{
    33 <= b && b <= 126 && !is_ident_cont_x(b) && b != 34
}

// ---------------------------------------------------------------------------
// Keywords
// ---------------------------------------------------------------------------

/// The source spelling of each keyword.
pub open spec fn kw_bytes(k: Kw) -> Seq<u8> {
    match k {
        Kw::Fn => seq![102u8, 110u8],
        Kw::Pub => seq![112u8, 117u8, 98u8],
        Kw::SelfLower => seq![115u8, 101u8, 108u8, 102u8],
        Kw::Mut => seq![109u8, 117u8, 116u8],
        Kw::Impl => seq![105u8, 109u8, 112u8, 108u8],
        Kw::Unsafe => seq![117u8, 110u8, 115u8, 97u8, 102u8, 101u8],
    }
}

pub open spec fn kw_of(w: Seq<u8>) -> Option<Kw> {
    if w == kw_bytes(Kw::Fn) {
        Some(Kw::Fn)
    } else if w == kw_bytes(Kw::Pub) {
        Some(Kw::Pub)
    } else if w == kw_bytes(Kw::SelfLower) {
        Some(Kw::SelfLower)
    } else if w == kw_bytes(Kw::Mut) {
        Some(Kw::Mut)
    } else if w == kw_bytes(Kw::Impl) {
        Some(Kw::Impl)
    } else if w == kw_bytes(Kw::Unsafe) {
        Some(Kw::Unsafe)
    } else {
        None
    }
}

/// A scanned word becomes a keyword token when it is one, and an
/// identifier token otherwise.
pub open spec fn ident_or_kw(w: Seq<u8>) -> TokV {
    match kw_of(w) {
        Some(k) => TokV::Kw(k),
        None => TokV::Ident(w),
    }
}

fn word_eq(w: &Vec<u8>, ghost_target: Ghost<Seq<u8>>, bytes: &[u8]) -> (r: bool)
    requires
        bytes@ == ghost_target@,
    ensures
        r == (w@ == ghost_target@),
{
    if w.len() != bytes.len() {
        assert(w@ != ghost_target@);
        return false;
    }
    let mut k: usize = 0;
    while k < w.len()
        invariant
            0 <= k <= w.len(),
            w@.len() == ghost_target@.len(),
            bytes@ == ghost_target@,
            forall|m: int| 0 <= m < k ==> w@[m] == ghost_target@[m],
        decreases w.len() - k,
    {
        if w[k] != bytes[k] {
            assert(w@ != ghost_target@);
            return false;
        }
        k += 1;
    }
    proof {
        assert(w@ =~= ghost_target@);
    }
    true
}

fn ident_or_kw_x(w: Vec<u8>) -> (t: Tok)
    ensures
        t@ == ident_or_kw(w@),
{
    let fn_b: [u8; 2] = [102, 110];
    let pub_b: [u8; 3] = [112, 117, 98];
    let self_b: [u8; 4] = [115, 101, 108, 102];
    let mut_b: [u8; 3] = [109, 117, 116];
    let impl_b: [u8; 4] = [105, 109, 112, 108];
    let unsafe_b: [u8; 6] = [117, 110, 115, 97, 102, 101];
    proof {
        assert(fn_b@ =~= kw_bytes(Kw::Fn));
        assert(pub_b@ =~= kw_bytes(Kw::Pub));
        assert(self_b@ =~= kw_bytes(Kw::SelfLower));
        assert(mut_b@ =~= kw_bytes(Kw::Mut));
        assert(impl_b@ =~= kw_bytes(Kw::Impl));
        assert(unsafe_b@ =~= kw_bytes(Kw::Unsafe));
    }
    if word_eq(&w, Ghost(kw_bytes(Kw::Fn)), fn_b.as_slice()) {
        Tok::Kw(Kw::Fn)
    } else if word_eq(&w, Ghost(kw_bytes(Kw::Pub)), pub_b.as_slice()) {
        Tok::Kw(Kw::Pub)
    } else if word_eq(&w, Ghost(kw_bytes(Kw::SelfLower)), self_b.as_slice()) {
        Tok::Kw(Kw::SelfLower)
    } else if word_eq(&w, Ghost(kw_bytes(Kw::Mut)), mut_b.as_slice()) {
        Tok::Kw(Kw::Mut)
    } else if word_eq(&w, Ghost(kw_bytes(Kw::Impl)), impl_b.as_slice()) {
        Tok::Kw(Kw::Impl)
    } else if word_eq(&w, Ghost(kw_bytes(Kw::Unsafe)), unsafe_b.as_slice()) {
        Tok::Kw(Kw::Unsafe)
    } else {
        Tok::Ident(w)
    }
}

// ---------------------------------------------------------------------------
// Scanning helpers
// ---------------------------------------------------------------------------

/// The first position at or after `i` that does not continue an identifier.
pub open spec fn scan_ident(s: Seq<u8>, i: int) -> int
    decreases s.len() - i,
    when 0 <= i <= s.len()
{
    if i < s.len() && is_ident_cont(s[i]) {
        scan_ident(s, i + 1)
    } else {
        i
    }
}

/// The first position at or after `i` that is not a decimal digit.
pub open spec fn scan_digits(s: Seq<u8>, i: int) -> int
    decreases s.len() - i,
    when 0 <= i <= s.len()
{
    if i < s.len() && is_digit(s[i]) {
        scan_digits(s, i + 1)
    } else {
        i
    }
}

/// The position just past the next line break at or after `i`.
pub open spec fn seek_newline(s: Seq<u8>, i: int) -> int
    decreases s.len() - i,
    when 0 <= i <= s.len()
{
    if i >= s.len() {
        i
    } else if s[i] == 10 {
        i + 1
    } else {
        seek_newline(s, i + 1)
    }
}

/// The position just past the closing quote of a string whose contents
/// start at `i`; `None` when the string is unterminated.  A backslash
/// shields the following byte.
pub open spec fn str_end(s: Seq<u8>, i: int) -> Option<int>
    decreases s.len() - i,
    when 0 <= i <= s.len()
{
    if i >= s.len() {
        None
    } else if s[i] == 34 {
        Some(i + 1)
    } else if s[i] == 92 {
        if i + 2 <= s.len() {
            str_end(s, i + 2)
        } else {
            None
        }
    } else {
        str_end(s, i + 1)
    }
}

pub proof fn lemma_scan_ident_bounds(s: Seq<u8>, i: int)
    requires
        0 <= i <= s.len(),
    ensures
        i <= scan_ident(s, i) <= s.len(),
    decreases s.len() - i,
{
    if i < s.len() && is_ident_cont(s[i]) {
        lemma_scan_ident_bounds(s, i + 1);
    }
}

pub proof fn lemma_scan_digits_bounds(s: Seq<u8>, i: int)
    requires
        0 <= i <= s.len(),
    ensures
        i <= scan_digits(s, i) <= s.len(),
    decreases s.len() - i,
{
    if i < s.len() && is_digit(s[i]) {
        lemma_scan_digits_bounds(s, i + 1);
    }
}

fn scan_ident_x(s: &[u8], i: usize) -> (j: usize)
    requires
        0 <= i <= s@.len(),
    ensures
        j == scan_ident(s@, i as int),
        i <= j <= s@.len(),
{
    let mut j: usize = i;
    while j < s.len() && is_ident_cont_x(s[j])
        invariant
            i <= j <= s@.len(),
            scan_ident(s@, i as int) == scan_ident(s@, j as int),
        decreases s@.len() - j,
    {
        j += 1;
    }
    j
}

fn scan_digits_x(s: &[u8], i: usize) -> (j: usize)
    requires
        0 <= i <= s@.len(),
    ensures
        j == scan_digits(s@, i as int),
        i <= j <= s@.len(),
{
    let mut j: usize = i;
    while j < s.len() && is_digit_x(s[j])
        invariant
            i <= j <= s@.len(),
            scan_digits(s@, i as int) == scan_digits(s@, j as int),
        decreases s@.len() - j,
    {
        j += 1;
    }
    j
}

fn seek_newline_x(s: &[u8], i: usize) -> (j: usize)
    requires
        0 <= i <= s@.len(),
    ensures
        j == seek_newline(s@, i as int),
        i <= j <= s@.len(),
{
    let mut j: usize = i;
    while j < s.len() && s[j] != 10
        invariant
            i <= j <= s@.len(),
            seek_newline(s@, i as int) == seek_newline(s@, j as int),
        decreases s@.len() - j,
    {
        j += 1;
    }
    if j < s.len() {
        j + 1
    } else {
        j
    }
}

fn str_end_x(s: &[u8], i: usize) -> (j: Option<usize>)
    requires
        0 <= i <= s@.len(),
    ensures
        match j {
            Some(j) => str_end(s@, i as int) == Some(j as int) && i < j <= s@.len(),
            None => str_end(s@, i as int) is None,
        },
{
    let mut j: usize = i;
    while j < s.len()
        invariant
            i <= j <= s@.len(),
            str_end(s@, i as int) == str_end(s@, j as int),
        decreases s@.len() - j,
    {
        if s[j] == 34 {
            return Some(j + 1);
        } else if s[j] == 92 {
            if s.len() - j >= 2 {
                j += 2;
            } else {
                return None;
            }
        } else {
            j += 1;
        }
    }
    None
}

/// The bytes of `s` from `i` up to `j`, as a fresh vector.
pub fn take_range(s: &[u8], i: usize, j: usize) -> (r: Vec<u8>)
    requires
        0 <= i <= j <= s@.len(),
    ensures
        r@ == s@.subrange(i as int, j as int),
{
    let mut r: Vec<u8> = Vec::new();
    let mut k: usize = i;
    while k < j
        invariant
            i <= k <= j <= s@.len(),
            r@ == s@.subrange(i as int, k as int),
        decreases j - k,
    {
        r.push(s[k]);
        proof {
            assert(r@ =~= s@.subrange(i as int, k + 1 as int));
        }
        k += 1;
    }
    r
}

// ---------------------------------------------------------------------------
// The lexer
// ---------------------------------------------------------------------------

/// The outcome of reading one token at position `i`.
pub enum StepV {
    Fail,
    Skip(int),
    Emit(TokV, int),
}

/// Reads whitespace, a comment, or one token at position `i`.
pub open spec fn lex_step(s: Seq<u8>, i: int) -> StepV
    recommends
        0 <= i < s.len(),
{
    let b = s[i];
    if is_ws(b) {
        StepV::Skip(i + 1)
    } else if b == 47 && i + 1 < s.len() && s[i + 1] == 47 {
        StepV::Skip(seek_newline(s, i + 2))
    } else if is_ident_start(b) {
        let j = scan_ident(s, i);
        StepV::Emit(ident_or_kw(s.subrange(i, j)), j)
    } else if is_digit(b) {
        let j = scan_digits(s, i);
        StepV::Emit(TokV::Int(s.subrange(i, j)), j)
    } else if b == 34 {
        match str_end(s, i + 1) {
            Some(j) => StepV::Emit(TokV::Str(s.subrange(i + 1, j - 1)), j),
            None => StepV::Fail,
        }
    } else if i + 1 < s.len() && is_op2(b, s[i + 1]) {
        StepV::Emit(TokV::Op2(b, s[i + 1]), i + 2)
    } else if is_punct_byte(b) {
        StepV::Emit(TokV::Punct(b), i + 1)
    } else {
        StepV::Fail
    }
}

/// The token sequence of `s` from position `i` on, or a lexical error.
pub open spec fn lex_from(s: Seq<u8>, i: int) -> Result<Seq<TokV>, Error>
    decreases s.len() - i,
    when 0 <= i <= s.len()
{
    if i >= s.len() {
        Ok(Seq::empty())
    } else {
        match lex_step(s, i) {
            StepV::Fail => Err(Error::Lex),
            StepV::Skip(j) => if i < j <= s.len() {
                lex_from(s, j)
            } else {
                Err(Error::Lex)
            },
            StepV::Emit(t, j) => if i < j <= s.len() {
                match lex_from(s, j) {
                    Ok(r) => Ok(seq![t] + r),
                    Err(e) => Err(e),
                }
            } else {
                Err(Error::Lex)
            },
        }
    }
}

/// The token sequence of a whole input.
pub open spec fn spec_lex(s: Seq<u8>) -> Result<Seq<TokV>, Error> {
    lex_from(s, 0)
}

/// Turns input bytes into tokens.  Succeeds exactly when every byte is
/// whitespace, a comment, or part of a well-formed token.
pub fn lex(s: &[u8]) -> (r: Result<Vec<Tok>, Error>)
    ensures
        match r {
            Ok(ts) => spec_lex(s@) == Ok::<_, Error>(toks_view(ts@)),
            Err(e) => spec_lex(s@) == Err::<Seq<TokV>, _>(e),
        },
{
    let mut out: Vec<Tok> = Vec::new();
    let mut i: usize = 0;
    while i < s.len()
        invariant
            0 <= i <= s@.len(),
            spec_lex(s@) == match lex_from(s@, i as int) {
                Ok(rest) => Ok::<Seq<TokV>, Error>(toks_view(out@) + rest),
                Err(e) => Err::<Seq<TokV>, Error>(e),
            },
        decreases s@.len() - i,
    {
        let ghost prev_out = out@;
        let ghost ii = i as int;
        let b = s[i];
        if is_ws_x(b) {
            assert(lex_step(s@, ii) == StepV::Skip(ii + 1));
            i += 1;
        } else if b == 47 && i + 1 < s.len() && s[i + 1] == 47 {
            let j = seek_newline_x(s, i + 2);
            assert(lex_step(s@, ii) == StepV::Skip(seek_newline(s@, ii + 2)));
            if j == i {
                // cannot happen: seek starts at i + 2
                assert(false);
            }
            i = j;
        } else {
            // one token is emitted or the input is refused
            let step: Result<(Tok, usize), Error> = if is_ident_start_x(b) {
                let j = scan_ident_x(s, i);
                proof {
                    lemma_scan_ident_bounds(s@, ii + 1);
                }
                let w = take_range(s, i, j);
                let t = ident_or_kw_x(w);
                assert(lex_step(s@, ii) == StepV::Emit(
                    ident_or_kw(s@.subrange(ii, scan_ident(s@, ii))),
                    scan_ident(s@, ii),
                ));
                Ok((t, j))
            } else if is_digit_x(b) {
                let j = scan_digits_x(s, i);
                proof {
                    lemma_scan_digits_bounds(s@, ii + 1);
                }
                let w = take_range(s, i, j);
                assert(lex_step(s@, ii) == StepV::Emit(
                    TokV::Int(s@.subrange(ii, scan_digits(s@, ii))),
                    scan_digits(s@, ii),
                ));
                Ok((Tok::Int(w), j))
            } else if b == 34 {
                match str_end_x(s, i + 1) {
                    Some(j) => {
                        let w = take_range(s, i + 1, j - 1);
                        assert(lex_step(s@, ii) == StepV::Emit(
                            TokV::Str(s@.subrange(ii + 1, str_end(s@, ii + 1)->0 - 1)),
                            str_end(s@, ii + 1)->0,
                        ));
                        Ok((Tok::Str(w), j))
                    },
                    None => {
                        assert(lex_step(s@, ii) == StepV::Fail);
                        Err(Error::Lex)
                    },
                }
            } else if i + 1 < s.len() && is_op2_x(b, s[i + 1]) {
                assert(lex_step(s@, ii) == StepV::Emit(TokV::Op2(s@[ii], s@[ii + 1]), ii + 2));
                Ok((Tok::Op2(b, s[i + 1]), i + 2))
            } else if is_punct_byte_x(b) {
                assert(lex_step(s@, ii) == StepV::Emit(TokV::Punct(s@[ii]), ii + 1));
                Ok((Tok::Punct(b), i + 1))
            } else {
                assert(lex_step(s@, ii) == StepV::Fail);
                Err(Error::Lex)
            };
            match step {
                Ok((t, j)) => {
                    assert(lex_step(s@, ii) matches StepV::Emit(tv, jv) && tv == t@ && jv == j as int
                        && ii < j <= s@.len());
                    out.push(t);
                    proof {
                        assert(toks_view(out@) =~= toks_view(prev_out).push(t@));
                        if lex_from(s@, j as int) is Ok {
                            let rest = lex_from(s@, j as int)->Ok_0;
                            assert(toks_view(prev_out) + (seq![t@] + rest) =~= toks_view(out@)
                                + rest);
                        }
                    }
                    i = j;
                },
                Err(e) => {
                    return Err(e);
                },
            }
        }
    }
    assert(lex_from(s@, i as int) == Ok::<Seq<TokV>, Error>(Seq::<TokV>::empty()));
    proof {
        assert(toks_view(out@) + Seq::<TokV>::empty() =~= toks_view(out@));
    }
    Ok(out)
}

// ---------------------------------------------------------------------------
// Rendering tokens back to text
// ---------------------------------------------------------------------------

/// The source bytes of one token.
pub open spec fn render_tok(t: TokV) -> Seq<u8> {
    match t {
        TokV::Ident(v) => v,
        TokV::Kw(k) => kw_bytes(k),
        TokV::Int(d) => d,
        TokV::Str(v) => seq![34u8] + v + seq![34u8],
        TokV::Punct(b) => seq![b],
        TokV::Op2(a, b) => seq![a, b],
    }
}

/// The source bytes of a token sequence: the tokens joined by single
/// spaces.
pub open spec fn render_toks(ts: Seq<TokV>) -> Seq<u8>
    decreases ts.len(),
{
    if ts.len() == 0 {
        Seq::empty()
    } else if ts.len() == 1 {
        render_tok(ts[0])
    } else {
        render_tok(ts[0]) + seq![32u8] + render_toks(ts.drop_first())
    }
}

pub proof fn lemma_render_push(ts: Seq<TokV>, t: TokV)
    ensures
        render_toks(ts.push(t)) == if ts.len() == 0 {
            render_tok(t)
        } else {
            render_toks(ts) + seq![32u8] + render_tok(t)
        },
    decreases ts.len(),
{
    if ts.len() == 0 {
        assert(ts.push(t).len() == 1);
        assert(ts.push(t)[0] == t);
    } else {
        assert(ts.push(t).drop_first() =~= ts.drop_first().push(t));
        lemma_render_push(ts.drop_first(), t);
        if ts.len() == 1 {
            assert(ts.push(t)[0] == ts[0]);
        } else {
            assert(ts.push(t)[0] == ts[0]);
            assert(render_toks(ts.drop_first()) + seq![32u8] + render_tok(t) =~= render_toks(
                ts.drop_first().push(t),
            ));
            assert(render_tok(ts[0]) + seq![32u8] + (render_toks(ts.drop_first()) + seq![32u8]
                + render_tok(t)) =~= (render_tok(ts[0]) + seq![32u8] + render_toks(ts.drop_first()))
                + seq![32u8] + render_tok(t));
        }
    }
}

/// Appends the bytes of `v` to `out`.
pub fn push_bytes(out: &mut Vec<u8>, v: &Vec<u8>)
    ensures
        final(out)@ == old(out)@ + v@,
{
    let mut k: usize = 0;
    while k < v.len()
        invariant
            0 <= k <= v@.len(),
            out@ == old(out)@ + v@.subrange(0, k as int),
        decreases v@.len() - k,
    {
        out.push(v[k]);
        proof {
            assert(old(out)@ + v@.subrange(0, k + 1 as int) =~= (old(out)@ + v@.subrange(
                0,
                k as int,
            )).push(v@[k as int]));
        }
        k += 1;
    }
    proof {
        assert(v@.subrange(0, v@.len() as int) =~= v@);
    }
}

fn push_kw(out: &mut Vec<u8>, k: Kw)
    ensures
        final(out)@ == old(out)@ + kw_bytes(k),
{
    let ghost pre = out@;
    match k {
        Kw::Fn => {
            out.push(102);
            out.push(110);
        },
        Kw::Pub => {
            out.push(112);
            out.push(117);
            out.push(98);
        },
        Kw::SelfLower => {
            out.push(115);
            out.push(101);
            out.push(108);
            out.push(102);
        },
        Kw::Mut => {
            out.push(109);
            out.push(117);
            out.push(116);
        },
        Kw::Impl => {
            out.push(105);
            out.push(109);
            out.push(112);
            out.push(108);
        },
        Kw::Unsafe => {
            out.push(117);
            out.push(110);
            out.push(115);
            out.push(97);
            out.push(102);
            out.push(101);
        },
    }
    proof {
        assert(out@ =~= pre + kw_bytes(k));
    }
}

fn push_tok(out: &mut Vec<u8>, t: &Tok)
    ensures
        final(out)@ == old(out)@ + render_tok(t@),
{
    let ghost pre = out@;
    match t {
        Tok::Ident(v) => {
            push_bytes(out, v);
        },
        Tok::Kw(k) => {
            push_kw(out, *k);
        },
        Tok::Int(v) => {
            push_bytes(out, v);
        },
        Tok::Str(v) => {
            out.push(34);
            push_bytes(out, v);
            out.push(34);
            proof {
                assert(out@ =~= pre + (seq![34u8] + v@ + seq![34u8]));
            }
        },
        Tok::Punct(b) => {
            out.push(*b);
            proof {
                assert(out@ =~= pre + seq![t@->Punct_0]);
            }
        },
        Tok::Op2(a, b) => {
            out.push(*a);
            out.push(*b);
            proof {
                assert(out@ =~= pre + seq![t@->Op2_0, t@->Op2_1]);
            }
        },
    }
}

/// Appends the rendered text of `ts` to `out`, with a single space
/// between adjacent tokens.  When `out` is nonempty and `ts` is nonempty a
/// space is written first.
pub fn render_into(out: &mut Vec<u8>, ts: &Vec<Tok>, sep_first: bool)
    ensures
        final(out)@ == old(out)@ + if ts@.len() == 0 {
            Seq::<u8>::empty()
        } else if sep_first {
            seq![32u8] + render_toks(toks_view(ts@))
        } else {
            render_toks(toks_view(ts@))
        },
{
    let ghost pre = out@;
    let mut k: usize = 0;
    while k < ts.len()
        invariant
            0 <= k <= ts@.len(),
            out@ == pre + if k == 0 {
                Seq::<u8>::empty()
            } else if sep_first {
                seq![32u8] + render_toks(toks_view(ts@).take(k as int))
            } else {
                render_toks(toks_view(ts@).take(k as int))
            },
        decreases ts@.len() - k,
    {
        if k > 0 || sep_first {
            out.push(32);
        }
        push_tok(out, &ts[k]);
        proof {
            let tv = toks_view(ts@);
            assert(tv.take(k + 1 as int) =~= tv.take(k as int).push(tv[k as int]));
            assert(tv[k as int] == ts@[k as int]@);
            lemma_render_push(tv.take(k as int), tv[k as int]);
            if k == 0 {
                assert(render_toks(tv.take(1)) == render_tok(tv[0]));
                if sep_first {
                    assert(out@ =~= pre + (seq![32u8] + render_toks(tv.take(1))));
                } else {
                    assert(out@ =~= pre + render_toks(tv.take(1)));
                }
            } else {
                if sep_first {
                    assert(out@ =~= pre + (seq![32u8] + render_toks(tv.take(k + 1 as int))));
                } else {
                    assert(out@ =~= pre + render_toks(tv.take(k + 1 as int)));
                }
            }
        }
        k += 1;
    }
    proof {
        assert(toks_view(ts@).take(ts@.len() as int) =~= toks_view(ts@));
    }
}

// ---------------------------------------------------------------------------
// Decimal digits
// ---------------------------------------------------------------------------

/// The decimal digits of `n`, most significant first.
pub open spec fn dec_digits(n: nat) -> Seq<u8>
    decreases n,
{
    if n < 10 {
        seq![(48 + n) as u8]
    } else {
        dec_digits(n / 10).push((48 + n % 10) as u8)
    }
}

/// The numeric value of a digit string.
pub open spec fn dec_val(d: Seq<u8>) -> nat
    decreases d.len(),
{
    if d.len() == 0 {
        0
    } else {
        dec_val(d.drop_last()) * 10 + (if is_digit(d.last()) {
            (d.last() - 48) as nat
        } else {
            0
        })
    }
}

/// Writes the decimal digits of `n`.
pub fn dec_bytes(n: u64) -> (r: Vec<u8>)
    ensures
        r@ == dec_digits(n as nat),
    decreases n,
{
    if n < 10 {
        let mut r: Vec<u8> = Vec::new();
        r.push(48 + (n as u8));
        proof {
            assert(r@ =~= dec_digits(n as nat));
        }
        r
    } else {
        let mut r = dec_bytes(n / 10);
        r.push(48 + ((n % 10) as u8));
        r
    }
}

proof fn lemma_dec_val_drop_prefix(d: Seq<u8>, k: int)
    requires
        0 <= k <= d.len(),
    ensures
        dec_val(d.take(k)) <= dec_val(d),
    decreases d.len() - k,
{
    if k < d.len() {
        assert(d.take(k + 1).drop_last() =~= d.take(k));
        assert(d.take(k + 1).last() == d[k]);
        assert(dec_val(d.take(k)) <= dec_val(d.take(k + 1)));
        lemma_dec_val_drop_prefix(d, k + 1);
    } else {
        assert(d.take(k) =~= d);
    }
}

/// Reads a digit string as a number; `None` when the value does not fit
/// in a machine word.
pub fn dec_parse(d: &Vec<u8>) -> (r: Option<u64>)
    ensures
        match r {
            Some(v) => v as nat == dec_val(d@),
            None => dec_val(d@) > u64::MAX,
        },
{
    let mut acc: u64 = 0;
    let mut k: usize = 0;
    while k < d.len()
        invariant
            0 <= k <= d@.len(),
            acc as nat == dec_val(d@.take(k as int)),
        decreases d@.len() - k,
    {
        let dig = d[k];
        proof {
            assert(d@.take(k + 1 as int).drop_last() =~= d@.take(k as int));
            assert(d@.take(k + 1 as int).last() == d@[k as int]);
        }
        if acc > u64::MAX / 10 {
            proof {
                assert(acc as nat * 10 > u64::MAX) by (nonlinear_arith)
                    requires
                        acc > u64::MAX / 10,
                ;
                lemma_dec_val_drop_prefix(d@, k + 1);
            }
            return None;
        }
        proof {
            assert(acc as nat * 10 <= u64::MAX) by (nonlinear_arith)
                requires
                    acc <= u64::MAX / 10,
            ;
        }
        let acc10: u64 = acc * 10;
        let dv: u64 = if 48 <= dig && dig <= 57 {
            (dig - 48) as u64
        } else {
            0
        };
        if dv > u64::MAX - acc10 {
            proof {
                lemma_dec_val_drop_prefix(d@, k + 1);
            }
            return None;
        }
        acc = acc10 + dv;
        k += 1;
    }
    proof {
        assert(d@.take(d@.len() as int) =~= d@);
    }
    Some(acc)
}

} // verus!
