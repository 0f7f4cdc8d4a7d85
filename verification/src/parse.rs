//! The template compiler: turns a template source string into a compiled
//! instruction sequence without evaluating any data. Lines hold literal
//! text (backtick-delimited or bare), `${...}` and `#{...}` substitutions;
//! `if`, `for` and `trim` header lines open indentation-nested blocks;
//! `continue:` abandons the current iteration. Compilation is a pure
//! function of the source text — the executable compiler returns exactly
//! [`compile_s`] of its input — so compiling the same source twice yields
//! structurally identical templates. Malformed input (unbalanced
//! delimiters, bad expressions, bad headers) is a compile error, never
//! malformed output.

use vstd::prelude::*;
use vstd::string::StrSliceExecFns;
use crate::ast::{BinOp, Expr, ExprS, Instr, InstrS, Template, lemma_view_instrs, view_expr,
    view_instr, view_instrs, view_template};
use crate::error::CompileErr;
use crate::strutil::{chars_vec, is_ws, is_ws_exec, push_char, rstrip_ws};
use crate::value::{Value, ValueS};

verus! {

broadcast use vstd::std_specs::vec::group_vec_axioms;

// ---------------------------------------------------------------------
// tokens
// ---------------------------------------------------------------------

/// The mathematical shape of a [`Tok`].
pub enum TokS {
    Id(Seq<char>),
    Int(i64),
    StrLit(Seq<char>),
    Op(BinOp),
    LPar,
    RPar,
    Comma,
}

/// One expression token: a name, an integer literal, a quoted string, an
/// operator, a parenthesis or a comma.
#[derive(Debug)]
pub enum Tok {
    Id(String),
    Int(i64),
    StrLit(String),
    Op(BinOp),
    LPar,
    RPar,
    Comma,
}

/// The mathematical view of a token.
pub open spec fn view_tok(t: Tok) -> TokS {
    match t {
        Tok::Id(s) => TokS::Id(s@),
        Tok::Int(n) => TokS::Int(n),
        Tok::StrLit(s) => TokS::StrLit(s@),
        Tok::Op(o) => TokS::Op(o),
        Tok::LPar => TokS::LPar,
        Tok::RPar => TokS::RPar,
        Tok::Comma => TokS::Comma,
    }
}

/// The views of a token sequence, in order.
pub open spec fn view_toks(s: Seq<Tok>) -> Seq<TokS>
    decreases s,
{
    if s.len() == 0 {
        Seq::empty()
    } else {
        seq![view_tok(s[0])] + view_toks(s.drop_first())
    }
}

/// `view_toks` maps the view over the sequence, element by element.
pub proof fn lemma_view_toks(s: Seq<Tok>)
    ensures
        view_toks(s).len() == s.len(),
        forall|i: int| 0 <= i < s.len() ==> #[trigger] view_toks(s)[i] == view_tok(s[i]),
    decreases s,
{
    if s.len() > 0 {
        lemma_view_toks(s.drop_first());
    }
}

/// True for a character that may start a name.
pub open spec fn is_id_start(c: char) -> bool {
    ('a' <= c && c <= 'z') || ('A' <= c && c <= 'Z') || c == '_'
}

/// True for a character that may continue a name.
pub open spec fn is_id_char(c: char) -> bool {
    is_id_start(c) || is_digit(c)
}

/// True for a decimal digit.
pub open spec fn is_digit(c: char) -> bool {
    '0' <= c && c <= '9'
}

/// The executable twin of [`is_id_start`].
#[verifier::when_used_as_spec(is_id_start)]
pub fn is_id_start_exec(c: char) -> (r: bool)
    ensures
        r == is_id_start(c),
{
    ('a' <= c && c <= 'z') || ('A' <= c && c <= 'Z') || c == '_'
}

/// The executable twin of [`is_id_char`].
#[verifier::when_used_as_spec(is_id_char)]
pub fn is_id_char_exec(c: char) -> (r: bool)
    ensures
        r == is_id_char(c),
{
    is_id_start_exec(c) || is_digit_exec(c)
}

/// The executable twin of [`is_digit`].
#[verifier::when_used_as_spec(is_digit)]
pub fn is_digit_exec(c: char) -> (r: bool)
    ensures
        r == is_digit(c),
{
    '0' <= c && c <= '9'
}

/// The numeric value of a digit character; ten for anything else.
pub open spec fn digit_val(c: char) -> int {
    if c == '0' { 0 }
    else if c == '1' { 1 }
    else if c == '2' { 2 }
    else if c == '3' { 3 }
    else if c == '4' { 4 }
    else if c == '5' { 5 }
    else if c == '6' { 6 }
    else if c == '7' { 7 }
    else if c == '8' { 8 }
    else if c == '9' { 9 }
    else { 10 }
}

/// The end of the name starting at `i`.
pub open spec fn id_end(s: Seq<char>, i: int) -> int
    decreases s.len() - i,
{
    if 0 <= i < s.len() && is_id_char(s[i]) {
        id_end(s, i + 1)
    } else {
        i
    }
}

/// The end of the digit run starting at `i`.
pub open spec fn int_end(s: Seq<char>, i: int) -> int
    decreases s.len() - i,
{
    if 0 <= i < s.len() && is_digit(s[i]) {
        int_end(s, i + 1)
    } else {
        i
    }
}

/// The first index at or after `i` holding `c`, or the length.
pub open spec fn find_char(s: Seq<char>, i: int, c: char) -> int
    decreases s.len() - i,
{
    if i < 0 || i >= s.len() {
        s.len() as int
    } else if s[i] == c {
        i
    } else {
        find_char(s, i + 1, c)
    }
}

/// The digit run `[i, j)` read as a number, accumulated onto `acc`; `None`
/// on 64-bit signed overflow.
pub open spec fn int_val(s: Seq<char>, i: int, j: int, acc: int) -> Option<int>
    decreases j - i,
{
    if acc > i64::MAX as int || acc < 0 {
        None
    } else if i >= j {
        Some(acc)
    } else {
        int_val(s, i + 1, j, acc * 10 + digit_val(s[i]))
    }
}

/// The token starting at `i` (whitespace skipped), as
/// `Ok(Some((token, next)))`, `Ok(None)` at the end of input, or a
/// compile error.
pub open spec fn next_tok_s(s: Seq<char>, i: int) -> Result<Option<(TokS, int)>, CompileErr>
    decreases s.len() - i,
{
    if i < 0 || i >= s.len() {
        Ok(None)
    } else if is_ws(s[i]) {
        next_tok_s(s, i + 1)
    } else if is_id_start(s[i]) {
        Ok(Some((TokS::Id(s.subrange(i, id_end(s, i + 1))), id_end(s, i + 1))))
    } else if is_digit(s[i]) {
        let j = int_end(s, i + 1);
        match int_val(s, i, j, 0) {
            Some(n) => Ok(Some((TokS::Int(n as i64), j))),
            None => Err(CompileErr::BadToken),
        }
    } else if s[i] == '\'' {
        let j = find_char(s, i + 1, '\'');
        if j >= s.len() {
            Err(CompileErr::UnclosedQuote)
        } else {
            Ok(Some((TokS::StrLit(s.subrange(i + 1, j)), j + 1)))
        }
    } else if s[i] == '(' {
        Ok(Some((TokS::LPar, i + 1)))
    } else if s[i] == ')' {
        Ok(Some((TokS::RPar, i + 1)))
    } else if s[i] == ',' {
        Ok(Some((TokS::Comma, i + 1)))
    } else if s[i] == '+' {
        Ok(Some((TokS::Op(BinOp::Add), i + 1)))
    } else if s[i] == '-' {
        Ok(Some((TokS::Op(BinOp::Sub), i + 1)))
    } else if s[i] == '*' {
        Ok(Some((TokS::Op(BinOp::Mul), i + 1)))
    } else if s[i] == '/' {
        Ok(Some((TokS::Op(BinOp::Div), i + 1)))
    } else if s[i] == '=' {
        if i + 1 < s.len() && s[i + 1] == '=' {
            Ok(Some((TokS::Op(BinOp::Eq), i + 2)))
        } else {
            Err(CompileErr::BadToken)
        }
    } else if s[i] == '!' {
        if i + 1 < s.len() && s[i + 1] == '=' {
            Ok(Some((TokS::Op(BinOp::Ne), i + 2)))
        } else {
            Err(CompileErr::BadToken)
        }
    } else if s[i] == '&' {
        if i + 1 < s.len() && s[i + 1] == '&' {
            Ok(Some((TokS::Op(BinOp::And), i + 2)))
        } else {
            Err(CompileErr::BadToken)
        }
    } else if s[i] == '|' {
        if i + 1 < s.len() && s[i + 1] == '|' {
            Ok(Some((TokS::Op(BinOp::Or), i + 2)))
        } else {
            Err(CompileErr::BadToken)
        }
    } else {
        Err(CompileErr::BadToken)
    }
}

/// The token sequence of an expression source, whitespace skipped.
pub open spec fn tokenize_s(s: Seq<char>, i: int, fuel: nat) -> Result<Seq<TokS>, CompileErr>
    decreases fuel,
{
    if fuel == 0 {
        Err(CompileErr::TooDeep)
    } else {
        match next_tok_s(s, i) {
            Err(e) => Err(e),
            Ok(None) => Ok(Seq::empty()),
            Ok(Some((t, j))) => if j <= i {
                Err(CompileErr::BadToken)
            } else {
                match tokenize_s(s, j, (fuel - 1) as nat) {
                    Err(e) => Err(e),
                    Ok(rest) => Ok(seq![t] + rest),
                }
            },
        }
    }
}

// ---------------------------------------------------------------------
// expression grammar
// ---------------------------------------------------------------------

/// The literal for a bare keyword or name token.
pub open spec fn atom_of_id(name: Seq<char>) -> ExprS {
    if name == "null"@ {
        ExprS::Lit(ValueS::Null)
    } else if name == "true"@ {
        ExprS::Lit(ValueS::Bool(true))
    } else if name == "false"@ {
        ExprS::Lit(ValueS::Bool(false))
    } else {
        ExprS::Var(name)
    }
}

/// An atom: a literal, a name, or a parenthesised expression.
pub open spec fn parse_atom_s(toks: Seq<TokS>, i: int, fuel: nat) -> Result<
    (ExprS, int),
    CompileErr,
>
    decreases fuel,
{
    if fuel == 0 {
        Err(CompileErr::TooDeep)
    } else if i < 0 || i >= toks.len() {
        Err(CompileErr::BadExpr)
    } else {
        match toks[i] {
            TokS::Id(name) => Ok((atom_of_id(name), i + 1)),
            TokS::Int(n) => Ok((ExprS::Lit(ValueS::I64(n)), i + 1)),
            TokS::StrLit(s) => Ok((ExprS::Lit(ValueS::Str(s)), i + 1)),
            TokS::LPar => match parse_or_s(toks, i + 1, (fuel - 1) as nat) {
                Err(e) => Err(e),
                Ok((e, j)) => if 0 <= j < toks.len() && toks[j] == TokS::RPar {
                    Ok((e, j + 1))
                } else {
                    Err(CompileErr::BadExpr)
                },
            },
            _ => Err(CompileErr::BadExpr),
        }
    }
}

/// A multiplicative chain: atoms joined by `*` and `/`, left to right.
pub open spec fn parse_mul_s(toks: Seq<TokS>, i: int, fuel: nat) -> Result<(ExprS, int), CompileErr>
    decreases fuel,
{
    if fuel == 0 {
        Err(CompileErr::TooDeep)
    } else {
        match parse_atom_s(toks, i, (fuel - 1) as nat) {
            Err(e) => Err(e),
            Ok((e, j)) => parse_mul_rest_s(toks, j, e, (fuel - 1) as nat),
        }
    }
}

/// The rest of a multiplicative chain.
pub open spec fn parse_mul_rest_s(toks: Seq<TokS>, i: int, lhs: ExprS, fuel: nat) -> Result<
    (ExprS, int),
    CompileErr,
>
    decreases fuel,
{
    if fuel == 0 {
        Err(CompileErr::TooDeep)
    } else if 0 <= i < toks.len() && (toks[i] == TokS::Op(BinOp::Mul) || toks[i] == TokS::Op(
        BinOp::Div,
    )) {
        let op = toks[i]->Op_0;
        match parse_atom_s(toks, i + 1, (fuel - 1) as nat) {
            Err(e) => Err(e),
            Ok((rhs, j)) => if j <= i {
                Err(CompileErr::BadExpr)
            } else {
                parse_mul_rest_s(
                    toks,
                    j,
                    ExprS::Bin(op, Box::new(lhs), Box::new(rhs)),
                    (fuel - 1) as nat,
                )
            },
        }
    } else {
        Ok((lhs, i))
    }
}

/// An additive chain: multiplicative chains joined by `+` and `-`.
pub open spec fn parse_add_s(toks: Seq<TokS>, i: int, fuel: nat) -> Result<(ExprS, int), CompileErr>
    decreases fuel,
{
    if fuel == 0 {
        Err(CompileErr::TooDeep)
    } else {
        match parse_mul_s(toks, i, (fuel - 1) as nat) {
            Err(e) => Err(e),
            Ok((e, j)) => parse_add_rest_s(toks, j, e, (fuel - 1) as nat),
        }
    }
}

/// The rest of an additive chain.
pub open spec fn parse_add_rest_s(toks: Seq<TokS>, i: int, lhs: ExprS, fuel: nat) -> Result<
    (ExprS, int),
    CompileErr,
>
    decreases fuel,
{
    if fuel == 0 {
        Err(CompileErr::TooDeep)
    } else if 0 <= i < toks.len() && (toks[i] == TokS::Op(BinOp::Add) || toks[i] == TokS::Op(
        BinOp::Sub,
    )) {
        let op = toks[i]->Op_0;
        match parse_mul_s(toks, i + 1, (fuel - 1) as nat) {
            Err(e) => Err(e),
            Ok((rhs, j)) => if j <= i {
                Err(CompileErr::BadExpr)
            } else {
                parse_add_rest_s(
                    toks,
                    j,
                    ExprS::Bin(op, Box::new(lhs), Box::new(rhs)),
                    (fuel - 1) as nat,
                )
            },
        }
    } else {
        Ok((lhs, i))
    }
}

/// A comparison: an additive chain, optionally `==` or `!=` another one.
pub open spec fn parse_cmp_s(toks: Seq<TokS>, i: int, fuel: nat) -> Result<(ExprS, int), CompileErr>
    decreases fuel,
{
    if fuel == 0 {
        Err(CompileErr::TooDeep)
    } else {
        match parse_add_s(toks, i, (fuel - 1) as nat) {
            Err(e) => Err(e),
            Ok((e, j)) => if 0 <= j < toks.len() && (toks[j] == TokS::Op(BinOp::Eq) || toks[j]
                == TokS::Op(BinOp::Ne)) {
                let op = toks[j]->Op_0;
                match parse_add_s(toks, j + 1, (fuel - 1) as nat) {
                    Err(e2) => Err(e2),
                    Ok((rhs, j2)) => Ok((ExprS::Bin(op, Box::new(e), Box::new(rhs)), j2)),
                }
            } else {
                Ok((e, j))
            },
        }
    }
}

/// A conjunction chain: comparisons joined by `&&`.
pub open spec fn parse_and_s(toks: Seq<TokS>, i: int, fuel: nat) -> Result<(ExprS, int), CompileErr>
    decreases fuel,
{
    if fuel == 0 {
        Err(CompileErr::TooDeep)
    } else {
        match parse_cmp_s(toks, i, (fuel - 1) as nat) {
            Err(e) => Err(e),
            Ok((e, j)) => parse_and_rest_s(toks, j, e, (fuel - 1) as nat),
        }
    }
}

/// The rest of a conjunction chain.
pub open spec fn parse_and_rest_s(toks: Seq<TokS>, i: int, lhs: ExprS, fuel: nat) -> Result<
    (ExprS, int),
    CompileErr,
>
    decreases fuel,
{
    if fuel == 0 {
        Err(CompileErr::TooDeep)
    } else if 0 <= i < toks.len() && toks[i] == TokS::Op(BinOp::And) {
        match parse_cmp_s(toks, i + 1, (fuel - 1) as nat) {
            Err(e) => Err(e),
            Ok((rhs, j)) => if j <= i {
                Err(CompileErr::BadExpr)
            } else {
                parse_and_rest_s(
                    toks,
                    j,
                    ExprS::Bin(BinOp::And, Box::new(lhs), Box::new(rhs)),
                    (fuel - 1) as nat,
                )
            },
        }
    } else {
        Ok((lhs, i))
    }
}

/// A disjunction chain: conjunctions joined by `||`.
pub open spec fn parse_or_s(toks: Seq<TokS>, i: int, fuel: nat) -> Result<(ExprS, int), CompileErr>
    decreases fuel,
{
    if fuel == 0 {
        Err(CompileErr::TooDeep)
    } else {
        match parse_and_s(toks, i, (fuel - 1) as nat) {
            Err(e) => Err(e),
            Ok((e, j)) => parse_or_rest_s(toks, j, e, (fuel - 1) as nat),
        }
    }
}

/// The rest of a disjunction chain.
pub open spec fn parse_or_rest_s(toks: Seq<TokS>, i: int, lhs: ExprS, fuel: nat) -> Result<
    (ExprS, int),
    CompileErr,
>
    decreases fuel,
{
    if fuel == 0 {
        Err(CompileErr::TooDeep)
    } else if 0 <= i < toks.len() && toks[i] == TokS::Op(BinOp::Or) {
        match parse_and_s(toks, i + 1, (fuel - 1) as nat) {
            Err(e) => Err(e),
            Ok((rhs, j)) => if j <= i {
                Err(CompileErr::BadExpr)
            } else {
                parse_or_rest_s(
                    toks,
                    j,
                    ExprS::Bin(BinOp::Or, Box::new(lhs), Box::new(rhs)),
                    (fuel - 1) as nat,
                )
            },
        }
    } else {
        Ok((lhs, i))
    }
}

/// The size cap on any parsed span; larger input exhausts the fuel and
/// compiles to a resource error.
pub open spec fn span_cap() -> int {
    0x0fff_ffff
}

/// The standard fuel for parsing a token sequence.
pub open spec fn expr_fuel(n: int) -> nat {
    if 0 <= n <= span_cap() {
        (8 * n + 16) as nat
    } else {
        0
    }
}

/// The standard fuel for a linear scan that consumes at least one
/// character per step.
pub open spec fn lin_fuel(n: int) -> nat {
    if 0 <= n <= span_cap() {
        (n + 2) as nat
    } else {
        0
    }
}

/// A whole expression: every token must belong to it.
pub open spec fn parse_expr_all_s(toks: Seq<TokS>) -> Result<ExprS, CompileErr> {
    match parse_or_s(toks, 0, expr_fuel(toks.len() as int)) {
        Err(e) => Err(e),
        Ok((e, j)) => if j == toks.len() {
            Ok(e)
        } else {
            Err(CompileErr::BadExpr)
        },
    }
}

/// An expression compiled from a span of source characters.
pub open spec fn expr_of_span_s(s: Seq<char>) -> Result<ExprS, CompileErr> {
    match tokenize_s(s, 0, lin_fuel(s.len() as int)) {
        Err(e) => Err(e),
        Ok(toks) => parse_expr_all_s(toks),
    }
}

// ---------------------------------------------------------------------
// lines
// ---------------------------------------------------------------------

/// The mathematical shape of a classified line.
pub enum LKindS {
    If(ExprS),
    For(Seq<char>, Seq<char>, ExprS),
    Trim(Seq<char>),
    Continue,
    Content(Seq<InstrS>),
}

/// A classified line with its indentation depth.
pub struct LineS {
    pub indent: int,
    pub kind: LKindS,
}

/// A classified line, executable form.
#[derive(Debug)]
pub enum LKind {
    If(Expr),
    For(String, String, Expr),
    Trim(String),
    Continue,
    Content(Vec<Instr>),
}

/// A classified line with its indentation depth, executable form.
#[derive(Debug)]
pub struct Line {
    pub indent: usize,
    pub kind: LKind,
}

/// The mathematical view of a classified line.
pub open spec fn view_line(l: Line) -> LineS {
    LineS {
        indent: l.indent as int,
        kind: match l.kind {
            LKind::If(e) => LKindS::If(view_expr(e)),
            LKind::For(k, v, e) => LKindS::For(k@, v@, view_expr(e)),
            LKind::Trim(s) => LKindS::Trim(s@),
            LKind::Continue => LKindS::Continue,
            LKind::Content(instrs) => LKindS::Content(view_instrs(instrs@)),
        },
    }
}

/// The views of a line sequence, in order.
pub open spec fn view_lines(s: Seq<Line>) -> Seq<LineS>
    decreases s,
{
    if s.len() == 0 {
        Seq::empty()
    } else {
        seq![view_line(s[0])] + view_lines(s.drop_first())
    }
}

/// `view_lines` maps the view over the sequence, element by element.
pub proof fn lemma_view_lines(s: Seq<Line>)
    ensures
        view_lines(s).len() == s.len(),
        forall|i: int| 0 <= i < s.len() ==> #[trigger] view_lines(s)[i] == view_line(s[i]),
    decreases s,
{
    if s.len() > 0 {
        lemma_view_lines(s.drop_first());
    }
}

/// True for a character that opens a literal or a substitution.
pub open spec fn is_special(c: char) -> bool {
    c == '`' || c == '$' || c == '#'
}

/// The executable twin of [`is_special`].
#[verifier::when_used_as_spec(is_special)]
pub fn is_special_exec(c: char) -> (r: bool)
    ensures
        r == is_special(c),
{
    c == '`' || c == '$' || c == '#'
}

/// The first special character at or after `i`, or the length.
pub open spec fn find_special(s: Seq<char>, i: int) -> int
    decreases s.len() - i,
{
    if i < 0 || i >= s.len() {
        s.len() as int
    } else if is_special(s[i]) {
        i
    } else {
        find_special(s, i + 1)
    }
}

/// The instructions of one content line: backtick-delimited literals,
/// `${...}` raw and `#{...}` bound substitutions, bare text.
pub open spec fn scan_line_s(s: Seq<char>, i: int, fuel: nat) -> Result<Seq<InstrS>, CompileErr>
    decreases fuel,
{
    if fuel == 0 {
        Err(CompileErr::TooDeep)
    } else if i < 0 || i >= s.len() {
        Ok(Seq::empty())
    } else if s[i] == '`' {
        // a backtick only delimits verbatim text; it is stripped, and
        // substitutions inside it are still parsed
        scan_line_s(s, i + 1, (fuel - 1) as nat)
    } else if (s[i] == '$' || s[i] == '#') && i + 1 < s.len() && s[i + 1] == '{' {
        let j = find_char(s, i + 2, '}');
        if j >= s.len() {
            Err(CompileErr::UnclosedBrace)
        } else {
            match expr_of_span_s(s.subrange(i + 2, j)) {
                Err(e) => Err(e),
                Ok(e) => match scan_line_s(s, j + 1, (fuel - 1) as nat) {
                    Err(e2) => Err(e2),
                    Ok(rest) => Ok(
                        seq![
                            if s[i] == '$' {
                                InstrS::RawSub(e)
                            } else {
                                InstrS::BoundSub(e)
                            }
                        ] + rest,
                    ),
                },
            }
        }
    } else {
        let j = find_special(s, i + 1);
        match scan_line_s(s, j, (fuel - 1) as nat) {
            Err(e) => Err(e),
            Ok(rest) => Ok(seq![InstrS::Lit(s.subrange(i, j))] + rest),
        }
    }
}

/// True when `p` begins `s`.
pub open spec fn starts_with(s: Seq<char>, p: Seq<char>) -> bool {
    p.len() <= s.len() && s.take(p.len() as int) == p
}

/// The `trim '<sep>':` header: the separator between the quotes, which
/// must not be empty.
pub open spec fn parse_trim_header_s(span0: Seq<char>) -> Result<LKindS, CompileErr> {
    let span = rstrip_ws(span0);
    if span.len() >= 2 && span.first() == '\'' && span.last() == '\'' {
        if span.len() == 2 {
            Err(CompileErr::EmptySeparator)
        } else {
            Ok(LKindS::Trim(span.subrange(1, span.len() - 1)))
        }
    } else {
        Err(CompileErr::BadHeader)
    }
}

/// The binders and collection of a `for` header, after the binders were
/// read up to position `p`.
pub open spec fn parse_for_tail_s(k: Seq<char>, v: Seq<char>, toks: Seq<TokS>, p: int) -> Result<
    LKindS,
    CompileErr,
> {
    if 0 <= p < toks.len() && toks[p] == TokS::Id("in"@) {
        match parse_or_s(toks, p + 1, expr_fuel(toks.len() as int)) {
            Err(e) => Err(e),
            Ok((e, j)) => if j == toks.len() {
                Ok(LKindS::For(k, v, e))
            } else {
                Err(CompileErr::BadHeader)
            },
        }
    } else {
        Err(CompileErr::BadHeader)
    }
}

/// The `for [key,]val in coll:` header. A single binder binds the value
/// alone.
pub open spec fn parse_for_header_s(span: Seq<char>) -> Result<LKindS, CompileErr> {
    match tokenize_s(span, 0, lin_fuel(span.len() as int)) {
        Err(e) => Err(e),
        Ok(toks) => if toks.len() >= 1 && toks[0] is Id {
            if toks.len() >= 3 && toks[1] == TokS::Comma && toks[2] is Id {
                parse_for_tail_s(toks[0]->Id_0, toks[2]->Id_0, toks, 3)
            } else {
                parse_for_tail_s(Seq::empty(), toks[0]->Id_0, toks, 1)
            }
        } else {
            Err(CompileErr::BadHeader)
        },
    }
}

/// Classifies one whitespace-trimmed line; `None` for an empty line.
pub open spec fn classify_line_s(c: Seq<char>) -> Result<Option<LKindS>, CompileErr> {
    if c.len() == 0 {
        Ok(None)
    } else if c == "continue:"@ {
        Ok(Some(LKindS::Continue))
    } else if starts_with(c, "if "@) {
        if c.last() == ':' {
            match expr_of_span_s(c.subrange(3, c.len() - 1)) {
                Err(e) => Err(e),
                Ok(e) => Ok(Some(LKindS::If(e))),
            }
        } else {
            Err(CompileErr::BadHeader)
        }
    } else if starts_with(c, "for "@) {
        if c.last() == ':' {
            match parse_for_header_s(c.subrange(4, c.len() - 1)) {
                Err(e) => Err(e),
                Ok(k) => Ok(Some(k)),
            }
        } else {
            Err(CompileErr::BadHeader)
        }
    } else if starts_with(c, "trim "@) {
        if c.last() == ':' {
            match parse_trim_header_s(c.subrange(5, c.len() - 1)) {
                Err(e) => Err(e),
                Ok(k) => Ok(Some(k)),
            }
        } else {
            Err(CompileErr::BadHeader)
        }
    } else if crate::eval::count_char(c, '`') % 2 != 0 {
        Err(CompileErr::UnclosedBacktick)
    } else {
        match scan_line_s(c, 0, lin_fuel(c.len() as int)) {
            Err(e) => Err(e),
            Ok(instrs) => Ok(Some(LKindS::Content(instrs))),
        }
    }
}

/// The end of the run of indentation characters from `i`.
pub open spec fn ws_end(s: Seq<char>, i: int) -> int
    decreases s.len() - i,
{
    if 0 <= i < s.len() && (s[i] == ' ' || s[i] == '\t') {
        ws_end(s, i + 1)
    } else {
        i
    }
}

/// The source split at newlines.
pub open spec fn split_lines_s(s: Seq<char>, i: int, fuel: nat) -> Seq<Seq<char>>
    decreases fuel,
{
    if fuel == 0 {
        Seq::empty()
    } else if i < 0 || i > s.len() {
        Seq::empty()
    } else {
        let j = find_char(s, i, '\n');
        if j >= s.len() {
            seq![s.subrange(i, s.len() as int)]
        } else {
            seq![s.subrange(i, j)] + split_lines_s(s, j + 1, (fuel - 1) as nat)
        }
    }
}

/// Classifies every line, dropping the empty ones: indentation depth and
/// line kind, in order.
pub open spec fn classify_all_s(lines: Seq<Seq<char>>, i: int) -> Result<Seq<LineS>, CompileErr>
    decreases lines.len() - i,
{
    if i < 0 || i >= lines.len() {
        Ok(Seq::empty())
    } else {
        let line = lines[i];
        let ind = ws_end(line, 0);
        if ind > span_cap() {
            Err(CompileErr::TooDeep)
        } else {
            let content = rstrip_ws(line.skip(ind));
            match classify_line_s(content) {
            Err(e) => Err(e),
            Ok(None) => classify_all_s(lines, i + 1),
            Ok(Some(kind)) => match classify_all_s(lines, i + 1) {
                Err(e) => Err(e),
                Ok(rest) => Ok(seq![LineS { indent: ind, kind }] + rest),
            },
            }
        }
    }
}

/// The standard fuel for assembling a line sequence into blocks.
pub open spec fn block_fuel(n: int) -> nat {
    if 0 <= n <= span_cap() {
        (2 * n + 8) as nat
    } else {
        0
    }
}

/// Assembles classified lines into nested blocks: a header line owns the
/// following lines of strictly greater indentation.
pub open spec fn parse_block_s(lines: Seq<LineS>, i: int, min_indent: int, fuel: nat) -> Result<
    (Seq<InstrS>, int),
    CompileErr,
>
    decreases fuel,
{
    if fuel == 0 {
        Err(CompileErr::TooDeep)
    } else if i < 0 || i >= lines.len() || lines[i].indent < min_indent {
        Ok((Seq::empty(), i))
    } else {
        match lines[i].kind {
            LKindS::Content(instrs) => match parse_block_s(lines, i + 1, min_indent, (fuel - 1) as nat) {
                Err(e) => Err(e),
                Ok((rest, j)) => Ok((instrs + rest, j)),
            },
            LKindS::Continue => match parse_block_s(lines, i + 1, min_indent, (fuel - 1) as nat) {
                Err(e) => Err(e),
                Ok((rest, j)) => Ok((seq![InstrS::Continue] + rest, j)),
            },
            LKindS::If(c) => match parse_block_s(lines, i + 1, lines[i].indent + 1, (fuel - 1) as nat) {
                Err(e) => Err(e),
                Ok((body, j)) => if j <= i {
                    Err(CompileErr::TooDeep)
                } else {
                    match parse_block_s(lines, j, min_indent, (fuel - 1) as nat) {
                        Err(e) => Err(e),
                        Ok((rest, j2)) => Ok((seq![InstrS::IfBlock(c, body)] + rest, j2)),
                    }
                },
            },
            LKindS::For(k, v, e) => match parse_block_s(
                lines,
                i + 1,
                lines[i].indent + 1,
                (fuel - 1) as nat,
            ) {
                Err(er) => Err(er),
                Ok((body, j)) => if j <= i {
                    Err(CompileErr::TooDeep)
                } else {
                    match parse_block_s(lines, j, min_indent, (fuel - 1) as nat) {
                        Err(er) => Err(er),
                        Ok((rest, j2)) => Ok((seq![InstrS::ForBlock(k, v, e, body)] + rest, j2)),
                    }
                },
            },
            LKindS::Trim(sep) => match parse_block_s(
                lines,
                i + 1,
                lines[i].indent + 1,
                (fuel - 1) as nat,
            ) {
                Err(e) => Err(e),
                Ok((body, j)) => if j <= i {
                    Err(CompileErr::TooDeep)
                } else {
                    match parse_block_s(lines, j, min_indent, (fuel - 1) as nat) {
                        Err(e) => Err(e),
                        Ok((rest, j2)) => Ok((seq![InstrS::TrimBlock(sep, body)] + rest, j2)),
                    }
                },
            },
        }
    }
}

/// Compilation, as a pure function of the source text.
pub open spec fn compile_s(src: Seq<char>) -> Result<Seq<InstrS>, CompileErr> {
    let lines = split_lines_s(src, 0, lin_fuel(src.len() as int));
    match classify_all_s(lines, 0) {
        Err(e) => Err(e),
        Ok(ls) => match parse_block_s(ls, 0, 0, block_fuel(ls.len() as int)) {
            Err(e) => Err(e),
            Ok((instrs, j)) => if j == ls.len() {
                Ok(instrs)
            } else {
                Err(CompileErr::TooDeep)
            },
        },
    }
}

// ---------------------------------------------------------------------
// the executable compiler
// ---------------------------------------------------------------------

/// The characters `cv[lo..hi]`.
fn subvec(cv: &Vec<char>, lo: usize, hi: usize) -> (r: Vec<char>)
    requires
        lo <= hi <= cv@.len(),
    ensures
        r@ == cv@.subrange(lo as int, hi as int),
{
    let mut out: Vec<char> = Vec::new();
    let mut i: usize = lo;
    while i < hi
        invariant
            lo <= i <= hi <= cv@.len(),
            out@.len() == i - lo,
            forall|j: int| 0 <= j < out@.len() ==> #[trigger] out@[j] == cv@[lo + j],
        decreases hi - i,
    {
        out.push(cv[i]);
        i = i + 1;
    }
    proof {
        assert(out@ =~= cv@.subrange(lo as int, hi as int));
    }
    out
}

/// The characters `cv[lo..hi]` as a string.
fn string_of_range(cv: &Vec<char>, lo: usize, hi: usize) -> (r: String)
    requires
        lo <= hi <= cv@.len(),
    ensures
        r@ == cv@.subrange(lo as int, hi as int),
{
    let mut out = String::new();
    let mut i: usize = lo;
    while i < hi
        invariant
            lo <= i <= hi <= cv@.len(),
            out@ == cv@.subrange(lo as int, i as int),
        decreases hi - i,
    {
        proof {
            assert(cv@.subrange(lo as int, i as int).push(cv@[i as int]) =~= cv@.subrange(
                lo as int,
                i as int + 1,
            ));
        }
        push_char(&mut out, cv[i]);
        i = i + 1;
    }
    out
}

/// True when `cv[lo..hi]` spells `lit`.
fn range_eq_lit(cv: &Vec<char>, lo: usize, hi: usize, lit: &str) -> (r: bool)
    requires
        lo <= hi <= cv@.len(),
    ensures
        r == (cv@.subrange(lo as int, hi as int) == lit@),
{
    let n = lit.unicode_len();
    if n != hi - lo {
        proof {
            assert(cv@.subrange(lo as int, hi as int).len() != lit@.len());
        }
        return false;
    }
    let mut i: usize = 0;
    while i < n
        invariant
            i <= n,
            n == lit@.len(),
            lo + n == hi,
            hi <= cv@.len(),
            forall|j: int| 0 <= j < i ==> #[trigger] cv@[lo + j] == lit@[j],
        decreases n - i,
    {
        if cv[lo + i] != lit.get_char(i) {
            proof {
                assert(cv@.subrange(lo as int, hi as int)[i as int] == cv@[lo + i]);
            }
            return false;
        }
        i = i + 1;
    }
    proof {
        assert forall|j: int| 0 <= j < n implies cv@.subrange(lo as int, hi as int)[j]
            == lit@[j] by {
            assert(cv@.subrange(lo as int, hi as int)[j] == cv@[lo + j]);
        }
        assert(cv@.subrange(lo as int, hi as int) =~= lit@);
    }
    true
}

/// The executable twin of [`id_end`].
fn id_end_x(cv: &Vec<char>, i: usize) -> (r: usize)
    requires
        i <= cv@.len(),
    ensures
        r as int == id_end(cv@, i as int),
        i <= r <= cv@.len(),
    decreases cv@.len() - i,
{
    if i < cv.len() && is_id_char_exec(cv[i]) {
        id_end_x(cv, i + 1)
    } else {
        i
    }
}

/// The executable twin of [`int_end`].
fn int_end_x(cv: &Vec<char>, i: usize) -> (r: usize)
    requires
        i <= cv@.len(),
    ensures
        r as int == int_end(cv@, i as int),
        i <= r <= cv@.len(),
    decreases cv@.len() - i,
{
    if i < cv.len() && is_digit_exec(cv[i]) {
        int_end_x(cv, i + 1)
    } else {
        i
    }
}

/// The executable twin of [`find_char`].
fn find_char_x(cv: &Vec<char>, i: usize, c: char) -> (r: usize)
    requires
        i <= cv@.len(),
    ensures
        r as int == find_char(cv@, i as int, c),
        i <= r <= cv@.len(),
    decreases cv@.len() - i,
{
    if i >= cv.len() {
        cv.len()
    } else if cv[i] == c {
        i
    } else {
        find_char_x(cv, i + 1, c)
    }
}

/// The executable twin of [`find_special`].
fn find_special_x(cv: &Vec<char>, i: usize) -> (r: usize)
    requires
        i <= cv@.len(),
    ensures
        r as int == find_special(cv@, i as int),
        i <= r <= cv@.len(),
    decreases cv@.len() - i,
{
    if i >= cv.len() {
        cv.len()
    } else if is_special_exec(cv[i]) {
        i
    } else {
        find_special_x(cv, i + 1)
    }
}

/// The executable twin of [`ws_end`].
fn ws_end_x(cv: &Vec<char>, i: usize) -> (r: usize)
    requires
        i <= cv@.len(),
    ensures
        r as int == ws_end(cv@, i as int),
        i <= r <= cv@.len(),
    decreases cv@.len() - i,
{
    if i < cv.len() && (cv[i] == ' ' || cv[i] == '\t') {
        ws_end_x(cv, i + 1)
    } else {
        i
    }
}

/// The executable twin of [`int_val`].
fn int_val_x(cv: &Vec<char>, i: usize, j: usize, acc: i64) -> (r: Option<i64>)
    requires
        j <= cv@.len(),
        0 <= acc,
    ensures
        match r {
            Some(n) => int_val(cv@, i as int, j as int, acc as int) == Some(n as int) && n >= 0,
            None => int_val(cv@, i as int, j as int, acc as int) is None,
        },
    decreases j - i,
{
    if i >= j {
        Some(acc)
    } else {
        let c = cv[i];
        let d: i64 = if c == '0' { 0 }
        else if c == '1' { 1 }
        else if c == '2' { 2 }
        else if c == '3' { 3 }
        else if c == '4' { 4 }
        else if c == '5' { 5 }
        else if c == '6' { 6 }
        else if c == '7' { 7 }
        else if c == '8' { 8 }
        else if c == '9' { 9 }
        else { 10 };
        proof {
            assert(d == digit_val(cv@[i as int]));
            assert(int_val(cv@, i as int, j as int, acc as int) == int_val(
                cv@,
                i as int + 1,
                j as int,
                acc as int * 10 + digit_val(cv@[i as int]),
            ));
        }
        let wide: i128 = acc as i128 * 10 + d as i128;
        if wide > i64::MAX as i128 || wide < 0 {
            proof {
                assert(int_val(cv@, i as int + 1, j as int, wide as int) is None);
            }
            None
        } else {
            int_val_x(cv, i + 1, j, wide as i64)
        }
    }
}

/// The executable twin of [`next_tok_s`].
fn next_tok_x(cv: &Vec<char>, i: usize) -> (r: Result<Option<(Tok, usize)>, CompileErr>)
    requires
        i <= cv@.len(),
    ensures
        match r {
            Ok(Some(p)) => next_tok_s(cv@, i as int) == Ok::<Option<(TokS, int)>, CompileErr>(
                Some((view_tok(p.0), p.1 as int)),
            ) && p.1 <= cv@.len(),
            Ok(None) => next_tok_s(cv@, i as int) == Ok::<Option<(TokS, int)>, CompileErr>(None),
            Err(e) => next_tok_s(cv@, i as int) == Err::<Option<(TokS, int)>, CompileErr>(e),
        },
    decreases cv@.len() - i,
{
    if i >= cv.len() {
        return Ok(None);
    }
    let c = cv[i];
    if is_ws_exec(c) {
        next_tok_x(cv, i + 1)
    } else if is_id_start_exec(c) {
        let j = id_end_x(cv, i + 1);
        let name = string_of_range(cv, i, j);
        Ok(Some((Tok::Id(name), j)))
    } else if is_digit_exec(c) {
        let j = int_end_x(cv, i + 1);
        match int_val_x(cv, i, j, 0) {
            Some(n) => Ok(Some((Tok::Int(n), j))),
            None => Err(CompileErr::BadToken),
        }
    } else if c == '\'' {
        let j = find_char_x(cv, i + 1, '\'');
        if j >= cv.len() {
            Err(CompileErr::UnclosedQuote)
        } else {
            let s = string_of_range(cv, i + 1, j);
            Ok(Some((Tok::StrLit(s), j + 1)))
        }
    } else if c == '(' {
        Ok(Some((Tok::LPar, i + 1)))
    } else if c == ')' {
        Ok(Some((Tok::RPar, i + 1)))
    } else if c == ',' {
        Ok(Some((Tok::Comma, i + 1)))
    } else if c == '+' {
        Ok(Some((Tok::Op(BinOp::Add), i + 1)))
    } else if c == '-' {
        Ok(Some((Tok::Op(BinOp::Sub), i + 1)))
    } else if c == '*' {
        Ok(Some((Tok::Op(BinOp::Mul), i + 1)))
    } else if c == '/' {
        Ok(Some((Tok::Op(BinOp::Div), i + 1)))
    } else if c == '=' {
        if i + 1 < cv.len() && cv[i + 1] == '=' {
            Ok(Some((Tok::Op(BinOp::Eq), i + 2)))
        } else {
            Err(CompileErr::BadToken)
        }
    } else if c == '!' {
        if i + 1 < cv.len() && cv[i + 1] == '=' {
            Ok(Some((Tok::Op(BinOp::Ne), i + 2)))
        } else {
            Err(CompileErr::BadToken)
        }
    } else if c == '&' {
        if i + 1 < cv.len() && cv[i + 1] == '&' {
            Ok(Some((Tok::Op(BinOp::And), i + 2)))
        } else {
            Err(CompileErr::BadToken)
        }
    } else if c == '|' {
        if i + 1 < cv.len() && cv[i + 1] == '|' {
            Ok(Some((Tok::Op(BinOp::Or), i + 2)))
        } else {
            Err(CompileErr::BadToken)
        }
    } else {
        Err(CompileErr::BadToken)
    }
}

/// The executable twin of [`tokenize_s`].
fn tokenize_x(cv: &Vec<char>, i: usize, fuel: usize) -> (r: Result<Vec<Tok>, CompileErr>)
    requires
        i <= cv@.len(),
    ensures
        match r {
            Ok(v) => tokenize_s(cv@, i as int, fuel as nat) == Ok::<Seq<TokS>, CompileErr>(
                view_toks(v@),
            ),
            Err(e) => tokenize_s(cv@, i as int, fuel as nat) == Err::<Seq<TokS>, CompileErr>(e),
        },
    decreases fuel,
{
    if fuel == 0 {
        return Err(CompileErr::TooDeep);
    }
    match next_tok_x(cv, i) {
        Err(e) => Err(e),
        Ok(None) => {
            let out: Vec<Tok> = Vec::new();
            proof {
                lemma_view_toks(out@);
                assert(view_toks(out@) =~= Seq::<TokS>::empty());
            }
            Ok(out)
        },
        Ok(Some((t, j))) => {
            if j <= i {
                Err(CompileErr::BadToken)
            } else {
                match tokenize_x(cv, j, fuel - 1) {
                    Err(e) => Err(e),
                    Ok(mut rest) => {
                        let ghost tv = view_tok(t);
                        let ghost restv = rest@;
                        let mut out: Vec<Tok> = Vec::new();
                        out.push(t);
                        out.append(&mut rest);
                        proof {
                            lemma_view_toks(out@);
                            lemma_view_toks(restv);
                            assert(view_toks(out@) =~= seq![tv] + view_toks(restv));
                        }
                        Ok(out)
                    },
                }
            }
        },
    }
}

/// The executable twin of [`atom_of_id`].
fn atom_of_id_x(name: String) -> (r: Expr)
    ensures
        view_expr(r) == atom_of_id(name@),
{
    if crate::strutil::str_eq(name.as_str(), "null") {
        Expr::Lit(Value::Null)
    } else if crate::strutil::str_eq(name.as_str(), "true") {
        Expr::Lit(Value::Bool(true))
    } else if crate::strutil::str_eq(name.as_str(), "false") {
        Expr::Lit(Value::Bool(false))
    } else {
        Expr::Var(name)
    }
}

/// The executable twin of [`parse_atom_s`].
fn parse_atom_x(toks: &Vec<Tok>, i: usize, fuel: usize) -> (r: Result<(Expr, usize), CompileErr>)
    ensures
        match r {
            Ok(p) => parse_atom_s(view_toks(toks@), i as int, fuel as nat) == Ok::<
                (ExprS, int),
                CompileErr,
            >((view_expr(p.0), p.1 as int)) && p.1 <= toks@.len(),
            Err(e) => parse_atom_s(view_toks(toks@), i as int, fuel as nat) == Err::<
                (ExprS, int),
                CompileErr,
            >(e),
        },
    decreases fuel,
{
    proof {
        lemma_view_toks(toks@);
    }
    if fuel == 0 {
        return Err(CompileErr::TooDeep);
    }
    if i >= toks.len() {
        return Err(CompileErr::BadExpr);
    }
    match &toks[i] {
        Tok::Id(name) => Ok((atom_of_id_x(name.clone()), i + 1)),
        Tok::Int(n) => Ok((Expr::Lit(Value::I64(*n)), i + 1)),
        Tok::StrLit(s) => Ok((Expr::Lit(Value::Str(s.clone())), i + 1)),
        Tok::LPar => match parse_or_x(toks, i + 1, fuel - 1) {
            Err(e) => Err(e),
            Ok((e, j)) => {
                if j < toks.len() {
                    match &toks[j] {
                        Tok::RPar => Ok((e, j + 1)),
                        _ => Err(CompileErr::BadExpr),
                    }
                } else {
                    Err(CompileErr::BadExpr)
                }
            },
        },
        _ => Err(CompileErr::BadExpr),
    }
}

/// The operator at `toks[i]`, if it is one of the two given.
fn op_at(toks: &Vec<Tok>, i: usize, a: BinOp, b: BinOp) -> (r: Option<BinOp>)
    ensures
        match r {
            Some(o) => 0 <= i < toks@.len() && toks@.len() <= usize::MAX && view_toks(
                toks@,
            )[i as int] == TokS::Op(o) && (o == a || o == b),
            None => !(0 <= i < toks@.len() && (view_toks(toks@)[i as int] == TokS::Op(a)
                || view_toks(toks@)[i as int] == TokS::Op(b))),
        },
{
    proof {
        lemma_view_toks(toks@);
    }
    let n = toks.len();
    if i >= n {
        return None;
    }
    match &toks[i] {
        Tok::Op(o) => {
            let oo = *o;
            if oo == a || oo == b {
                Some(oo)
            } else {
                None
            }
        },
        _ => None,
    }
}

/// The executable twin of [`parse_mul_s`].
fn parse_mul_x(toks: &Vec<Tok>, i: usize, fuel: usize) -> (r: Result<(Expr, usize), CompileErr>)
    ensures
        match r {
            Ok(p) => parse_mul_s(view_toks(toks@), i as int, fuel as nat) == Ok::<
                (ExprS, int),
                CompileErr,
            >((view_expr(p.0), p.1 as int)) && p.1 <= toks@.len(),
            Err(e) => parse_mul_s(view_toks(toks@), i as int, fuel as nat) == Err::<
                (ExprS, int),
                CompileErr,
            >(e),
        },
    decreases fuel,
{
    if fuel == 0 {
        return Err(CompileErr::TooDeep);
    }
    match parse_atom_x(toks, i, fuel - 1) {
        Err(e) => Err(e),
        Ok((e, j)) => parse_mul_rest_x(toks, j, e, fuel - 1),
    }
}

/// The executable twin of [`parse_mul_rest_s`].
fn parse_mul_rest_x(toks: &Vec<Tok>, i: usize, lhs: Expr, fuel: usize) -> (r: Result<
    (Expr, usize),
    CompileErr,
>)
    requires
        i <= toks@.len(),
    ensures
        match r {
            Ok(p) => parse_mul_rest_s(view_toks(toks@), i as int, view_expr(lhs), fuel as nat)
                == Ok::<(ExprS, int), CompileErr>((view_expr(p.0), p.1 as int)) && p.1
                <= toks@.len(),
            Err(e) => parse_mul_rest_s(view_toks(toks@), i as int, view_expr(lhs), fuel as nat)
                == Err::<(ExprS, int), CompileErr>(e),
        },
    decreases fuel,
{
    proof {
        lemma_view_toks(toks@);
    }
    if fuel == 0 {
        return Err(CompileErr::TooDeep);
    }
    match op_at(toks, i, BinOp::Mul, BinOp::Div) {
        Some(op) => match parse_atom_x(toks, i + 1, fuel - 1) {
            Err(e) => Err(e),
            Ok((rhs, j)) => {
                if j <= i {
                    Err(CompileErr::BadExpr)
                } else {
                    parse_mul_rest_x(
                        toks,
                        j,
                        Expr::Bin(op, Box::new(lhs), Box::new(rhs)),
                        fuel - 1,
                    )
                }
            },
        },
        None => Ok((lhs, i)),
    }
}

/// The executable twin of [`parse_add_s`].
fn parse_add_x(toks: &Vec<Tok>, i: usize, fuel: usize) -> (r: Result<(Expr, usize), CompileErr>)
    ensures
        match r {
            Ok(p) => parse_add_s(view_toks(toks@), i as int, fuel as nat) == Ok::<
                (ExprS, int),
                CompileErr,
            >((view_expr(p.0), p.1 as int)) && p.1 <= toks@.len(),
            Err(e) => parse_add_s(view_toks(toks@), i as int, fuel as nat) == Err::<
                (ExprS, int),
                CompileErr,
            >(e),
        },
    decreases fuel,
{
    if fuel == 0 {
        return Err(CompileErr::TooDeep);
    }
    match parse_mul_x(toks, i, fuel - 1) {
        Err(e) => Err(e),
        Ok((e, j)) => parse_add_rest_x(toks, j, e, fuel - 1),
    }
}

/// The executable twin of [`parse_add_rest_s`].
fn parse_add_rest_x(toks: &Vec<Tok>, i: usize, lhs: Expr, fuel: usize) -> (r: Result<
    (Expr, usize),
    CompileErr,
>)
    requires
        i <= toks@.len(),
    ensures
        match r {
            Ok(p) => parse_add_rest_s(view_toks(toks@), i as int, view_expr(lhs), fuel as nat)
                == Ok::<(ExprS, int), CompileErr>((view_expr(p.0), p.1 as int)) && p.1
                <= toks@.len(),
            Err(e) => parse_add_rest_s(view_toks(toks@), i as int, view_expr(lhs), fuel as nat)
                == Err::<(ExprS, int), CompileErr>(e),
        },
    decreases fuel,
{
    proof {
        lemma_view_toks(toks@);
    }
    if fuel == 0 {
        return Err(CompileErr::TooDeep);
    }
    match op_at(toks, i, BinOp::Add, BinOp::Sub) {
        Some(op) => match parse_mul_x(toks, i + 1, fuel - 1) {
            Err(e) => Err(e),
            Ok((rhs, j)) => {
                if j <= i {
                    Err(CompileErr::BadExpr)
                } else {
                    parse_add_rest_x(
                        toks,
                        j,
                        Expr::Bin(op, Box::new(lhs), Box::new(rhs)),
                        fuel - 1,
                    )
                }
            },
        },
        None => Ok((lhs, i)),
    }
}

/// The executable twin of [`parse_cmp_s`].
fn parse_cmp_x(toks: &Vec<Tok>, i: usize, fuel: usize) -> (r: Result<(Expr, usize), CompileErr>)
    ensures
        match r {
            Ok(p) => parse_cmp_s(view_toks(toks@), i as int, fuel as nat) == Ok::<
                (ExprS, int),
                CompileErr,
            >((view_expr(p.0), p.1 as int)) && p.1 <= toks@.len(),
            Err(e) => parse_cmp_s(view_toks(toks@), i as int, fuel as nat) == Err::<
                (ExprS, int),
                CompileErr,
            >(e),
        },
    decreases fuel,
{
    proof {
        lemma_view_toks(toks@);
    }
    if fuel == 0 {
        return Err(CompileErr::TooDeep);
    }
    match parse_add_x(toks, i, fuel - 1) {
        Err(e) => Err(e),
        Ok((e, j)) => match op_at(toks, j, BinOp::Eq, BinOp::Ne) {
            Some(op) => match parse_add_x(toks, j + 1, fuel - 1) {
                Err(e2) => Err(e2),
                Ok((rhs, j2)) => Ok((Expr::Bin(op, Box::new(e), Box::new(rhs)), j2)),
            },
            None => Ok((e, j)),
        },
    }
}

/// The executable twin of [`parse_and_s`].
fn parse_and_x(toks: &Vec<Tok>, i: usize, fuel: usize) -> (r: Result<(Expr, usize), CompileErr>)
    ensures
        match r {
            Ok(p) => parse_and_s(view_toks(toks@), i as int, fuel as nat) == Ok::<
                (ExprS, int),
                CompileErr,
            >((view_expr(p.0), p.1 as int)) && p.1 <= toks@.len(),
            Err(e) => parse_and_s(view_toks(toks@), i as int, fuel as nat) == Err::<
                (ExprS, int),
                CompileErr,
            >(e),
        },
    decreases fuel,
{
    if fuel == 0 {
        return Err(CompileErr::TooDeep);
    }
    match parse_cmp_x(toks, i, fuel - 1) {
        Err(e) => Err(e),
        Ok((e, j)) => parse_and_rest_x(toks, j, e, fuel - 1),
    }
}

/// The executable twin of [`parse_and_rest_s`].
fn parse_and_rest_x(toks: &Vec<Tok>, i: usize, lhs: Expr, fuel: usize) -> (r: Result<
    (Expr, usize),
    CompileErr,
>)
    requires
        i <= toks@.len(),
    ensures
        match r {
            Ok(p) => parse_and_rest_s(view_toks(toks@), i as int, view_expr(lhs), fuel as nat)
                == Ok::<(ExprS, int), CompileErr>((view_expr(p.0), p.1 as int)) && p.1
                <= toks@.len(),
            Err(e) => parse_and_rest_s(view_toks(toks@), i as int, view_expr(lhs), fuel as nat)
                == Err::<(ExprS, int), CompileErr>(e),
        },
    decreases fuel,
{
    proof {
        lemma_view_toks(toks@);
    }
    if fuel == 0 {
        return Err(CompileErr::TooDeep);
    }
    match op_at(toks, i, BinOp::And, BinOp::And) {
        Some(_) => match parse_cmp_x(toks, i + 1, fuel - 1) {
            Err(e) => Err(e),
            Ok((rhs, j)) => {
                if j <= i {
                    Err(CompileErr::BadExpr)
                } else {
                    parse_and_rest_x(
                        toks,
                        j,
                        Expr::Bin(BinOp::And, Box::new(lhs), Box::new(rhs)),
                        fuel - 1,
                    )
                }
            },
        },
        None => Ok((lhs, i)),
    }
}

/// The executable twin of [`parse_or_s`].
fn parse_or_x(toks: &Vec<Tok>, i: usize, fuel: usize) -> (r: Result<(Expr, usize), CompileErr>)
    ensures
        match r {
            Ok(p) => parse_or_s(view_toks(toks@), i as int, fuel as nat) == Ok::<
                (ExprS, int),
                CompileErr,
            >((view_expr(p.0), p.1 as int)) && p.1 <= toks@.len(),
            Err(e) => parse_or_s(view_toks(toks@), i as int, fuel as nat) == Err::<
                (ExprS, int),
                CompileErr,
            >(e),
        },
    decreases fuel,
{
    if fuel == 0 {
        return Err(CompileErr::TooDeep);
    }
    match parse_and_x(toks, i, fuel - 1) {
        Err(e) => Err(e),
        Ok((e, j)) => parse_or_rest_x(toks, j, e, fuel - 1),
    }
}

/// The executable twin of [`parse_or_rest_s`].
fn parse_or_rest_x(toks: &Vec<Tok>, i: usize, lhs: Expr, fuel: usize) -> (r: Result<
    (Expr, usize),
    CompileErr,
>)
    requires
        i <= toks@.len(),
    ensures
        match r {
            Ok(p) => parse_or_rest_s(view_toks(toks@), i as int, view_expr(lhs), fuel as nat)
                == Ok::<(ExprS, int), CompileErr>((view_expr(p.0), p.1 as int)) && p.1
                <= toks@.len(),
            Err(e) => parse_or_rest_s(view_toks(toks@), i as int, view_expr(lhs), fuel as nat)
                == Err::<(ExprS, int), CompileErr>(e),
        },
    decreases fuel,
{
    proof {
        lemma_view_toks(toks@);
    }
    if fuel == 0 {
        return Err(CompileErr::TooDeep);
    }
    match op_at(toks, i, BinOp::Or, BinOp::Or) {
        Some(_) => match parse_and_x(toks, i + 1, fuel - 1) {
            Err(e) => Err(e),
            Ok((rhs, j)) => {
                if j <= i {
                    Err(CompileErr::BadExpr)
                } else {
                    parse_or_rest_x(
                        toks,
                        j,
                        Expr::Bin(BinOp::Or, Box::new(lhs), Box::new(rhs)),
                        fuel - 1,
                    )
                }
            },
        },
        None => Ok((lhs, i)),
    }
}

/// The executable fuel for parsing `n` tokens.
fn expr_fuel_x(n: usize) -> (r: usize)
    ensures
        r as nat == expr_fuel(n as int),
{
    if n > 0x0fff_ffff {
        0
    } else {
        8 * n + 16
    }
}

/// The executable fuel for a linear scan over `n` characters.
fn lin_fuel_x(n: usize) -> (r: usize)
    ensures
        r as nat == lin_fuel(n as int),
{
    if n > 0x0fff_ffff {
        0
    } else {
        n + 2
    }
}

/// The executable twin of [`parse_expr_all_s`].
fn parse_expr_all_x(toks: &Vec<Tok>) -> (r: Result<Expr, CompileErr>)
    ensures
        match r {
            Ok(e) => parse_expr_all_s(view_toks(toks@)) == Ok::<ExprS, CompileErr>(view_expr(e)),
            Err(er) => parse_expr_all_s(view_toks(toks@)) == Err::<ExprS, CompileErr>(er),
        },
{
    proof {
        lemma_view_toks(toks@);
    }
    let fuel = expr_fuel_x(toks.len());
    match parse_or_x(toks, 0, fuel) {
        Err(e) => Err(e),
        Ok((e, j)) => {
            if j == toks.len() {
                Ok(e)
            } else {
                Err(CompileErr::BadExpr)
            }
        },
    }
}

/// The executable twin of [`expr_of_span_s`] over `cv[lo..hi]`.
fn expr_of_span_x(cv: &Vec<char>, lo: usize, hi: usize) -> (r: Result<Expr, CompileErr>)
    requires
        lo <= hi <= cv@.len(),
    ensures
        match r {
            Ok(e) => expr_of_span_s(cv@.subrange(lo as int, hi as int)) == Ok::<ExprS, CompileErr>(
                view_expr(e),
            ),
            Err(er) => expr_of_span_s(cv@.subrange(lo as int, hi as int)) == Err::<
                ExprS,
                CompileErr,
            >(er),
        },
{
    let sub = subvec(cv, lo, hi);
    let fuel = lin_fuel_x(sub.len());
    match tokenize_x(&sub, 0, fuel) {
        Err(e) => Err(e),
        Ok(toks) => parse_expr_all_x(&toks),
    }
}

/// The executable twin of [`scan_line_s`].
fn scan_line_x(cv: &Vec<char>, i: usize, fuel: usize) -> (r: Result<Vec<Instr>, CompileErr>)
    requires
        i <= cv@.len(),
    ensures
        match r {
            Ok(v) => scan_line_s(cv@, i as int, fuel as nat) == Ok::<Seq<InstrS>, CompileErr>(
                view_instrs(v@),
            ),
            Err(e) => scan_line_s(cv@, i as int, fuel as nat) == Err::<Seq<InstrS>, CompileErr>(e),
        },
    decreases fuel,
{
    if fuel == 0 {
        return Err(CompileErr::TooDeep);
    }
    if i >= cv.len() {
        let out: Vec<Instr> = Vec::new();
        proof {
            lemma_view_instrs(out@);
            assert(view_instrs(out@) =~= Seq::<InstrS>::empty());
        }
        return Ok(out);
    }
    let c = cv[i];
    if c == '`' {
        scan_line_x(cv, i + 1, fuel - 1)
    } else if (c == '$' || c == '#') && i + 1 < cv.len() && cv[i + 1] == '{' {
        let j = find_char_x(cv, i + 2, '}');
        if j >= cv.len() {
            Err(CompileErr::UnclosedBrace)
        } else {
            match expr_of_span_x(cv, i + 2, j) {
                Err(e) => Err(e),
                Ok(e) => match scan_line_x(cv, j + 1, fuel - 1) {
                    Err(e2) => Err(e2),
                    Ok(mut rest) => {
                        let sub = if c == '$' {
                            Instr::RawSub(e)
                        } else {
                            Instr::BoundSub(e)
                        };
                        let ghost subv = view_instr(sub);
                        let ghost restv = rest@;
                        let mut out: Vec<Instr> = Vec::new();
                        out.push(sub);
                        out.append(&mut rest);
                        proof {
                            lemma_view_instrs(out@);
                            lemma_view_instrs(restv);
                            assert(view_instrs(out@) =~= seq![subv] + view_instrs(restv));
                        }
                        Ok(out)
                    },
                },
            }
        }
    } else {
        let j = find_special_x(cv, i + 1);
        match scan_line_x(cv, j, fuel - 1) {
            Err(e) => Err(e),
            Ok(mut rest) => {
                let lit = Instr::Lit(string_of_range(cv, i, j));
                let ghost litv = view_instr(lit);
                let ghost restv = rest@;
                let mut out: Vec<Instr> = Vec::new();
                out.push(lit);
                out.append(&mut rest);
                proof {
                    lemma_view_instrs(out@);
                    lemma_view_instrs(restv);
                    assert(view_instrs(out@) =~= seq![litv] + view_instrs(restv));
                }
                Ok(out)
            },
        }
    }
}

/// The executable twin of [`parse_trim_header_s`] over `cv[lo..hi]`.
fn parse_trim_header_x(cv: &Vec<char>, lo: usize, hi: usize) -> (r: Result<LKind, CompileErr>)
    requires
        lo <= hi <= cv@.len(),
    ensures
        match r {
            Ok(k) => parse_trim_header_s(cv@.subrange(lo as int, hi as int)) matches Ok(ks)
                && view_line(Line { indent: 0, kind: k }).kind == ks,
            Err(e) => parse_trim_header_s(cv@.subrange(lo as int, hi as int)) == Err::<
                LKindS,
                CompileErr,
            >(e),
        },
{
    let sub = subvec(cv, lo, hi);
    proof {
        assert(sub@.take(sub@.len() as int) =~= sub@);
    }
    let e = crate::eval::rstrip_len(&sub, sub.len());
    let ghost span = rstrip_ws(sub@);
    if e >= 2 && sub[0] == '\'' && sub[e - 1] == '\'' {
        proof {
            assert(span.first() == sub@[0]);
            assert(span.last() == sub@[e - 1]);
        }
        if e == 2 {
            Err(CompileErr::EmptySeparator)
        } else {
            let sep = string_of_range(&sub, 1, e - 1);
            proof {
                assert(sep@ =~= span.subrange(1, span.len() - 1));
            }
            Ok(LKind::Trim(sep))
        }
    } else {
        proof {
            if span.len() >= 2 {
                assert(span.first() == sub@[0]);
                assert(span.last() == sub@[e - 1]);
            }
        }
        Err(CompileErr::BadHeader)
    }
}

/// The executable twin of [`parse_for_header_s`] over `cv[lo..hi]`.
fn parse_for_header_x(cv: &Vec<char>, lo: usize, hi: usize) -> (r: Result<LKind, CompileErr>)
    requires
        lo <= hi <= cv@.len(),
    ensures
        match r {
            Ok(k) => parse_for_header_s(cv@.subrange(lo as int, hi as int)) matches Ok(ks)
                && view_line(Line { indent: 0, kind: k }).kind == ks,
            Err(e) => parse_for_header_s(cv@.subrange(lo as int, hi as int)) == Err::<
                LKindS,
                CompileErr,
            >(e),
        },
{
    let sub = subvec(cv, lo, hi);
    let fuel = lin_fuel_x(sub.len());
    let toks = match tokenize_x(&sub, 0, fuel) {
        Err(e) => {
            return Err(e);
        },
        Ok(ts) => ts,
    };
    proof {
        lemma_view_toks(toks@);
    }
    if toks.len() >= 1 {
        let first_is_id = matches!(&toks[0], Tok::Id(_));
        if first_is_id {
            if toks.len() >= 3 && matches!(&toks[1], Tok::Comma) && matches!(&toks[2], Tok::Id(_)) {
                let k = match &toks[0] {
                    Tok::Id(s) => s.clone(),
                    _ => String::new(),
                };
                let v = match &toks[2] {
                    Tok::Id(s) => s.clone(),
                    _ => String::new(),
                };
                parse_for_tail_x(k, v, &toks, 3)
            } else {
                let v = match &toks[0] {
                    Tok::Id(s) => s.clone(),
                    _ => String::new(),
                };
                proof {
                    reveal_strlit("");
                    assert(""@ =~= Seq::<char>::empty());
                }
                parse_for_tail_x(String::new(), v, &toks, 1)
            }
        } else {
            Err(CompileErr::BadHeader)
        }
    } else {
        Err(CompileErr::BadHeader)
    }
}

/// The executable twin of [`parse_for_tail_s`].
fn parse_for_tail_x(k: String, v: String, toks: &Vec<Tok>, p: usize) -> (r: Result<
    LKind,
    CompileErr,
>)
    ensures
        match r {
            Ok(kd) => parse_for_tail_s(k@, v@, view_toks(toks@), p as int) matches Ok(ks)
                && view_line(Line { indent: 0, kind: kd }).kind == ks,
            Err(e) => parse_for_tail_s(k@, v@, view_toks(toks@), p as int) == Err::<
                LKindS,
                CompileErr,
            >(e),
        },
{
    proof {
        lemma_view_toks(toks@);
    }
    if p < toks.len() {
        let is_in = match &toks[p] {
            Tok::Id(s) => crate::strutil::str_eq(s.as_str(), "in"),
            _ => false,
        };
        if is_in {
            let fuel = expr_fuel_x(toks.len());
            match parse_or_x(toks, p + 1, fuel) {
                Err(e) => Err(e),
                Ok((e, j)) => {
                    if j == toks.len() {
                        Ok(LKind::For(k, v, e))
                    } else {
                        Err(CompileErr::BadHeader)
                    }
                },
            }
        } else {
            Err(CompileErr::BadHeader)
        }
    } else {
        Err(CompileErr::BadHeader)
    }
}

/// The executable twin of [`classify_line_s`].
fn classify_line_x(cv: &Vec<char>) -> (r: Result<Option<LKind>, CompileErr>)
    ensures
        match r {
            Ok(Some(k)) => classify_line_s(cv@) matches Ok(ks) && ks matches Some(ks2)
                && view_line(Line { indent: 0, kind: k }).kind == ks2,
            Ok(None) => classify_line_s(cv@) == Ok::<Option<LKindS>, CompileErr>(None),
            Err(e) => classify_line_s(cv@) == Err::<Option<LKindS>, CompileErr>(e),
        },
{
    let n = cv.len();
    proof {
        assert(cv@.subrange(0, n as int) =~= cv@);
    }
    if n == 0 {
        return Ok(None);
    }
    if range_eq_lit(cv, 0, n, "continue:") {
        return Ok(Some(LKind::Continue));
    }
    proof {
        reveal_strlit("if ");
        reveal_strlit("for ");
        reveal_strlit("trim ");
    }
    if n >= 3 && range_eq_lit(cv, 0, 3, "if ") {
        proof {
            assert(cv@.take(3) =~= cv@.subrange(0, 3));
            assert(cv@[2] == "if "@[2]);
            reveal_strlit("if ");
        }
        if cv[n - 1] == ':' {
            proof {
                assert(n >= 4);
            }
            match expr_of_span_x(cv, 3, n - 1) {
                Err(e) => Err(e),
                Ok(e) => Ok(Some(LKind::If(e))),
            }
        } else {
            Err(CompileErr::BadHeader)
        }
    } else if n >= 4 && range_eq_lit(cv, 0, 4, "for ") {
        proof {
            assert(cv@.take(4) =~= cv@.subrange(0, 4));
            assert(!starts_with(cv@, "if "@)) by {
                if starts_with(cv@, "if "@) {
                    assert(cv@.take(3) =~= cv@.subrange(0, 3));
                }
            }
        }
        if cv[n - 1] == ':' {
            proof {
                assert(cv@[3] == "for "@[3]);
                assert(n >= 5);
            }
            match parse_for_header_x(cv, 4, n - 1) {
                Err(e) => Err(e),
                Ok(k) => Ok(Some(k)),
            }
        } else {
            Err(CompileErr::BadHeader)
        }
    } else if n >= 5 && range_eq_lit(cv, 0, 5, "trim ") {
        proof {
            assert(cv@.take(5) =~= cv@.subrange(0, 5));
            assert(!starts_with(cv@, "if "@)) by {
                if starts_with(cv@, "if "@) {
                    assert(cv@.take(3) =~= cv@.subrange(0, 3));
                }
            }
            assert(!starts_with(cv@, "for "@)) by {
                if starts_with(cv@, "for "@) {
                    assert(cv@.take(4) =~= cv@.subrange(0, 4));
                }
            }
        }
        if cv[n - 1] == ':' {
            proof {
                assert(cv@[4] == "trim "@[4]);
                assert(n >= 6);
            }
            match parse_trim_header_x(cv, 5, n - 1) {
                Err(e) => Err(e),
                Ok(k) => Ok(Some(k)),
            }
        } else {
            Err(CompileErr::BadHeader)
        }
    } else {
        proof {
            assert(!starts_with(cv@, "if "@)) by {
                if starts_with(cv@, "if "@) {
                    assert(cv@.take(3) =~= cv@.subrange(0, 3));
                }
            }
            assert(!starts_with(cv@, "for "@)) by {
                if starts_with(cv@, "for "@) {
                    assert(cv@.take(4) =~= cv@.subrange(0, 4));
                }
            }
            assert(!starts_with(cv@, "trim "@)) by {
                if starts_with(cv@, "trim "@) {
                    assert(cv@.take(5) =~= cv@.subrange(0, 5));
                }
            }
        }
        let ticks = count_char_x(cv, '`');
        if ticks % 2 != 0 {
            return Err(CompileErr::UnclosedBacktick);
        }
        let fuel = lin_fuel_x(n);
        match scan_line_x(cv, 0, fuel) {
            Err(e) => Err(e),
            Ok(instrs) => Ok(Some(LKind::Content(instrs))),
        }
    }
}

/// Occurrences of `c` in `cv[i..]`.
fn count_char_from(cv: &Vec<char>, i: usize, c: char) -> (r: usize)
    requires
        i <= cv@.len(),
    ensures
        r as int == crate::eval::count_char(cv@.skip(i as int), c),
        r <= cv@.len() - i,
    decreases cv@.len() - i,
{
    if i >= cv.len() {
        proof {
            assert(cv@.skip(i as int) =~= Seq::<char>::empty());
        }
        0
    } else {
        proof {
            assert(cv@.skip(i as int).first() == cv@[i as int]);
            assert(cv@.skip(i as int).drop_first() =~= cv@.skip(i as int + 1));
        }
        let rest = count_char_from(cv, i + 1, c);
        if cv[i] == c {
            rest + 1
        } else {
            rest
        }
    }
}

/// Occurrences of `c` in `cv`.
fn count_char_x(cv: &Vec<char>, c: char) -> (r: usize)
    ensures
        r as int == crate::eval::count_char(cv@, c),
{
    proof {
        assert(cv@.skip(0) =~= cv@);
    }
    count_char_from(cv, 0, c)
}

/// The views of raw line buffers, in order.
pub open spec fn view_charvecs(s: Seq<Vec<char>>) -> Seq<Seq<char>>
    decreases s,
{
    if s.len() == 0 {
        Seq::empty()
    } else {
        seq![s[0]@] + view_charvecs(s.drop_first())
    }
}

/// `view_charvecs` maps the view over the sequence, element by element.
pub proof fn lemma_view_charvecs(s: Seq<Vec<char>>)
    ensures
        view_charvecs(s).len() == s.len(),
        forall|i: int| 0 <= i < s.len() ==> #[trigger] view_charvecs(s)[i] == s[i]@,
    decreases s,
{
    if s.len() > 0 {
        lemma_view_charvecs(s.drop_first());
    }
}

/// The executable twin of [`split_lines_s`].
fn split_lines_x(cv: &Vec<char>, i: usize, fuel: usize) -> (r: Vec<Vec<char>>)
    requires
        i <= cv@.len(),
    ensures
        view_charvecs(r@) == split_lines_s(cv@, i as int, fuel as nat),
    decreases fuel,
{
    if fuel == 0 {
        let out: Vec<Vec<char>> = Vec::new();
        proof {
            lemma_view_charvecs(out@);
            assert(view_charvecs(out@) =~= Seq::<Seq<char>>::empty());
        }
        return out;
    }
    let j = find_char_x(cv, i, '\n');
    if j >= cv.len() {
        let line = subvec(cv, i, cv.len());
        let mut out: Vec<Vec<char>> = Vec::new();
        out.push(line);
        proof {
            lemma_view_charvecs(out@);
            assert(view_charvecs(out@) =~= seq![cv@.subrange(i as int, cv@.len() as int)]);
        }
        out
    } else {
        let line = subvec(cv, i, j);
        let ghost linev = line@;
        let mut rest = split_lines_x(cv, j + 1, fuel - 1);
        let mut out: Vec<Vec<char>> = Vec::new();
        let ghost restv = rest@;
        out.push(line);
        out.append(&mut rest);
        proof {
            lemma_view_charvecs(out@);
            lemma_view_charvecs(restv);
            assert(view_charvecs(out@) =~= seq![linev] + view_charvecs(restv));
        }
        out
    }
}

/// The executable twin of [`classify_all_s`].
fn classify_all_x(lines: &Vec<Vec<char>>, i: usize) -> (r: Result<Vec<Line>, CompileErr>)
    requires
        i <= lines@.len(),
    ensures
        match r {
            Ok(v) => classify_all_s(view_charvecs(lines@), i as int) == Ok::<
                Seq<LineS>,
                CompileErr,
            >(view_lines(v@)),
            Err(e) => classify_all_s(view_charvecs(lines@), i as int) == Err::<
                Seq<LineS>,
                CompileErr,
            >(e),
        },
    decreases lines@.len() - i,
{
    proof {
        lemma_view_charvecs(lines@);
    }
    if i >= lines.len() {
        let out: Vec<Line> = Vec::new();
        proof {
            lemma_view_lines(out@);
            assert(view_lines(out@) =~= Seq::<LineS>::empty());
        }
        return Ok(out);
    }
    let lv = &lines[i];
    let ind = ws_end_x(lv, 0);
    if ind > 0x0fff_ffff {
        return Err(CompileErr::TooDeep);
    }
    let sv = subvec(lv, ind, lv.len());
    proof {
        assert(sv@ =~= lv@.skip(ind as int));
        assert(sv@.take(sv@.len() as int) =~= sv@);
    }
    let e = crate::eval::rstrip_len(&sv, sv.len());
    let content = subvec(&sv, 0, e);
    proof {
        assert(content@ == rstrip_ws(lv@.skip(ind as int)));
    }
    match classify_line_x(&content) {
        Err(er) => Err(er),
        Ok(None) => classify_all_x(lines, i + 1),
        Ok(Some(kind)) => match classify_all_x(lines, i + 1) {
            Err(er) => Err(er),
            Ok(mut rest) => {
                let line = Line { indent: ind, kind };
                let ghost linev = view_line(line);
                let ghost restv = rest@;
                let mut out: Vec<Line> = Vec::new();
                out.push(line);
                out.append(&mut rest);
                proof {
                    lemma_view_lines(out@);
                    lemma_view_lines(restv);
                    assert(view_lines(out@) =~= seq![linev] + view_lines(restv));
                }
                Ok(out)
            },
        },
    }
}

/// The executable twin of [`parse_block_s`].
#[verifier::rlimit(60)]
fn parse_block_x(lines: &Vec<Line>, i: usize, min_indent: usize, fuel: usize) -> (r: Result<
    (Vec<Instr>, usize),
    CompileErr,
>)
    requires
        forall|q: int| 0 <= q < lines@.len() ==> #[trigger] lines@[q].indent <= 0x0fff_ffff,
    ensures
        match r {
            Ok(p) => parse_block_s(view_lines(lines@), i as int, min_indent as int, fuel as nat)
                == Ok::<(Seq<InstrS>, int), CompileErr>((view_instrs(p.0@), p.1 as int)),
            Err(e) => parse_block_s(view_lines(lines@), i as int, min_indent as int, fuel as nat)
                == Err::<(Seq<InstrS>, int), CompileErr>(e),
        },
    decreases fuel,
{
    proof {
        lemma_view_lines(lines@);
    }
    if fuel == 0 {
        return Err(CompileErr::TooDeep);
    }
    if i >= lines.len() || lines[i].indent < min_indent {
        let out: Vec<Instr> = Vec::new();
        proof {
            lemma_view_instrs(out@);
            assert(view_instrs(out@) =~= Seq::<InstrS>::empty());
        }
        return Ok((out, i));
    }
    match &lines[i].kind {
        LKind::Content(instrs) => match parse_block_x(lines, i + 1, min_indent, fuel - 1) {
            Err(e) => Err(e),
            Ok((mut rest, j)) => {
                let mut out = crate::ast::clone_instrs(instrs);
                let ghost outv = out@;
                let ghost restv = rest@;
                out.append(&mut rest);
                proof {
                    crate::ast::lemma_view_instrs_concat(outv, restv);
                }
                Ok((out, j))
            },
        },
        LKind::Continue => match parse_block_x(lines, i + 1, min_indent, fuel - 1) {
            Err(e) => Err(e),
            Ok((mut rest, j)) => {
                let mut out: Vec<Instr> = Vec::new();
                out.push(Instr::Continue);
                let ghost outv = out@;
                let ghost restv = rest@;
                out.append(&mut rest);
                proof {
                    crate::ast::lemma_view_instrs_concat(outv, restv);
                    lemma_view_instrs(outv);
                    assert(view_instrs(outv) =~= seq![InstrS::Continue]);
                }
                Ok((out, j))
            },
        },
        LKind::If(c) => match parse_block_x(lines, i + 1, lines[i].indent + 1, fuel - 1) {
            Err(e) => Err(e),
            Ok((body, j)) => {
                if j <= i {
                    Err(CompileErr::TooDeep)
                } else {
                    match parse_block_x(lines, j, min_indent, fuel - 1) {
                        Err(e) => Err(e),
                        Ok((mut rest, j2)) => {
                            let head = Instr::IfBlock(crate::ast::clone_expr(c), body);
                            let ghost headv = view_instr(head);
                            let mut out: Vec<Instr> = Vec::new();
                            out.push(head);
                            let ghost outv = out@;
                            let ghost restv = rest@;
                            out.append(&mut rest);
                            proof {
                                crate::ast::lemma_view_instrs_concat(outv, restv);
                                lemma_view_instrs(outv);
                                assert(view_instrs(outv) =~= seq![headv]);
                            }
                            Ok((out, j2))
                        },
                    }
                }
            },
        },
        LKind::For(k, v, e) => match parse_block_x(lines, i + 1, lines[i].indent + 1, fuel - 1) {
            Err(er) => Err(er),
            Ok((body, j)) => {
                if j <= i {
                    Err(CompileErr::TooDeep)
                } else {
                    match parse_block_x(lines, j, min_indent, fuel - 1) {
                        Err(er) => Err(er),
                        Ok((mut rest, j2)) => {
                            let head = Instr::ForBlock(
                                k.clone(),
                                v.clone(),
                                crate::ast::clone_expr(e),
                                body,
                            );
                            let ghost headv = view_instr(head);
                            let mut out: Vec<Instr> = Vec::new();
                            out.push(head);
                            let ghost outv = out@;
                            let ghost restv = rest@;
                            out.append(&mut rest);
                            proof {
                                crate::ast::lemma_view_instrs_concat(outv, restv);
                                lemma_view_instrs(outv);
                                assert(view_instrs(outv) =~= seq![headv]);
                            }
                            Ok((out, j2))
                        },
                    }
                }
            },
        },
        LKind::Trim(sep) => match parse_block_x(lines, i + 1, lines[i].indent + 1, fuel - 1) {
            Err(e) => Err(e),
            Ok((body, j)) => {
                if j <= i {
                    Err(CompileErr::TooDeep)
                } else {
                    match parse_block_x(lines, j, min_indent, fuel - 1) {
                        Err(e) => Err(e),
                        Ok((mut rest, j2)) => {
                            let head = Instr::TrimBlock(sep.clone(), body);
                            let ghost headv = view_instr(head);
                            let mut out: Vec<Instr> = Vec::new();
                            out.push(head);
                            let ghost outv = out@;
                            let ghost restv = rest@;
                            out.append(&mut rest);
                            proof {
                                crate::ast::lemma_view_instrs_concat(outv, restv);
                                lemma_view_instrs(outv);
                                assert(view_instrs(outv) =~= seq![headv]);
                            }
                            Ok((out, j2))
                        },
                    }
                }
            },
        },
    }
}

/// Compiles a template source string into a template, returning exactly
/// [`compile_s`] of the source: compilation is deterministic and pure,
/// and a malformed template is a compile error.
pub fn compile(src: &str) -> (r: Result<Template, CompileErr>)
    ensures
        match r {
            Ok(t) => compile_s(src@) == Ok::<Seq<InstrS>, CompileErr>(view_template(t)),
            Err(e) => compile_s(src@) == Err::<Seq<InstrS>, CompileErr>(e),
        },
{
    let cv = chars_vec(src);
    let fuel = lin_fuel_x(cv.len());
    let lines = split_lines_x(&cv, 0, fuel);
    let ls = match classify_all_x(&lines, 0) {
        Err(e) => {
            return Err(e);
        },
        Ok(v) => v,
    };
    proof {
        lemma_view_lines(ls@);
        lemma_classify_bounded(view_charvecs(lines@), 0);
        assert forall|q: int| 0 <= q < ls@.len() implies #[trigger] ls@[q].indent
            <= 0x0fff_ffff by {
            assert(view_lines(ls@)[q] == view_line(ls@[q]));
            assert(view_lines(ls@)[q].indent <= span_cap());
        }
    }
    let bfuel: usize = if ls.len() > 0x0fff_ffff {
        0
    } else {
        2 * ls.len() + 8
    };
    match parse_block_x(&ls, 0, 0, bfuel) {
        Err(e) => Err(e),
        Ok((instrs, j)) => {
            if j == ls.len() {
                Ok(Template { instrs })
            } else {
                Err(CompileErr::TooDeep)
            }
        },
    }
}

/// Every classified line's indentation is within the span cap.
proof fn lemma_classify_bounded(lines: Seq<Seq<char>>, i: int)
    ensures
        classify_all_s(lines, i) matches Ok(ls) ==> forall|q: int|
            0 <= q < ls.len() ==> #[trigger] ls[q].indent <= span_cap(),
    decreases lines.len() - i,
{
    if 0 <= i < lines.len() {
        lemma_classify_bounded(lines, i + 1);
        match classify_all_s(lines, i) {
            Ok(ls) => {
                let ind = ws_end(lines[i], 0);
                match classify_line_s(rstrip_ws(lines[i].skip(ind))) {
                    Ok(Some(_)) => {
                        match classify_all_s(lines, i + 1) {
                            Ok(rest) => {
                                assert(forall|q: int| 1 <= q < ls.len() ==> ls[q] == rest[q - 1]);
                            },
                            Err(_) => {},
                        }
                    },
                    _ => {},
                }
            },
            Err(_) => {},
        }
    }
}

/// Round trip: compilation is deterministic, so compiling a template
/// twice yields instruction sequences that evaluate to identical SQL
/// text and bind values for identical environments.
pub proof fn lemma_compile_round_trip(
    src: Seq<char>,
    t1: Seq<InstrS>,
    t2: Seq<InstrS>,
    env: Seq<(Seq<char>, ValueS)>,
)
    requires
        compile_s(src) == Ok::<Seq<InstrS>, CompileErr>(t1),
        compile_s(src) == Ok::<Seq<InstrS>, CompileErr>(t2),
    ensures
        t1 == t2,
        crate::eval::eval_template_s(t1, env) == crate::eval::eval_template_s(t2, env),
{
}

} // verus!
