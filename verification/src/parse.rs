//! Parsing the expression language: literals (null, booleans, signed
//! integers, single-quoted strings), dotted variable paths with index
//! subscripts, unary `!`/`-`, binary arithmetic, comparisons and
//! logical connectives, and parenthesisation. No function calls, no
//! side effects, no assignment.
//!
//! The lexer is pinned to a definitional model (`lex_model`); a parsed
//! expression unparses back to exactly the input's tokens
//! (`unparse_toks`), which also fixes precedence and associativity.
use vstd::prelude::*;

use crate::expr::BinOp;
use crate::expr::Expr;
use crate::expr::PathSeg;
use crate::value::Value;

verus! {

/// Why an expression failed to parse.
#[derive(Debug, Clone, Copy, PartialEq, Eq, Structural)]
pub enum ParseError {
    BadChar,
    BadNumber,
    UnterminatedString,
    Unexpected,
    TrailingInput,
}

/// One token of the expression language.
#[derive(Debug)]
pub enum Token {
    IntLit(i64),
    DecLit(String),
    StrLit(String),
    Ident(String),
    KwNull,
    KwTrue,
    KwFalse,
    LPar,
    RPar,
    LBrack,
    RBrack,
    Dot,
    Bang,
    Plus,
    Minus,
    Star,
    Slash,
    Percent,
    EqEq,
    NeQ,
    Lt,
    Le,
    Gt,
    Ge,
    AndAnd,
    OrOr,
}

/// The mathematical shape of one token.
pub enum TokM {
    Int(i64),
    Dec(Seq<char>),
    Str(Seq<char>),
    Ident(Seq<char>),
    KwNull,
    KwTrue,
    KwFalse,
    LPar,
    RPar,
    LBrack,
    RBrack,
    Dot,
    Bang,
    Plus,
    Minus,
    Star,
    Slash,
    Percent,
    EqEq,
    NeQ,
    Lt,
    Le,
    Gt,
    Ge,
    AndAnd,
    OrOr,
}

/// The model of one exec-level token.
pub open spec fn token_view(t: Token) -> TokM {
    match t {
        Token::IntLit(v) => TokM::Int(v),
        Token::DecLit(s) => TokM::Dec(s@),
        Token::StrLit(s) => TokM::Str(s@),
        Token::Ident(s) => TokM::Ident(s@),
        Token::KwNull => TokM::KwNull,
        Token::KwTrue => TokM::KwTrue,
        Token::KwFalse => TokM::KwFalse,
        Token::LPar => TokM::LPar,
        Token::RPar => TokM::RPar,
        Token::LBrack => TokM::LBrack,
        Token::RBrack => TokM::RBrack,
        Token::Dot => TokM::Dot,
        Token::Bang => TokM::Bang,
        Token::Plus => TokM::Plus,
        Token::Minus => TokM::Minus,
        Token::Star => TokM::Star,
        Token::Slash => TokM::Slash,
        Token::Percent => TokM::Percent,
        Token::EqEq => TokM::EqEq,
        Token::NeQ => TokM::NeQ,
        Token::Lt => TokM::Lt,
        Token::Le => TokM::Le,
        Token::Gt => TokM::Gt,
        Token::Ge => TokM::Ge,
        Token::AndAnd => TokM::AndAnd,
        Token::OrOr => TokM::OrOr,
    }
}

pub open spec fn toks_view(ts: Seq<Token>) -> Seq<TokM> {
    Seq::new(ts.len(), |i: int| token_view(ts[i]))
}

pub open spec fn is_digit_c(c: char) -> bool {
    48 <= c as u32 <= 57
}

pub open spec fn is_istart_c(c: char) -> bool {
    (65 <= c as u32 <= 90) || (97 <= c as u32 <= 122) || c == '_'
}

pub open spec fn is_ichar_c(c: char) -> bool {
    is_istart_c(c) || is_digit_c(c)
}

/// Where a digit run ends.
pub open spec fn digits_end(s: Seq<char>, i: int) -> int
    decreases s.len() - i,
    when 0 <= i <= s.len()
{
    if i < s.len() && is_digit_c(s[i]) {
        digits_end(s, i + 1)
    } else {
        i
    }
}

proof fn lemma_digits_end_range(s: Seq<char>, i: int)
    requires
        0 <= i <= s.len(),
    ensures
        i <= digits_end(s, i) <= s.len(),
    decreases s.len() - i,
{
    if i < s.len() && is_digit_c(s[i]) {
        lemma_digits_end_range(s, i + 1);
    }
}

/// Where an identifier's character run ends.
pub open spec fn ident_end(s: Seq<char>, i: int) -> int
    decreases s.len() - i,
    when 0 <= i <= s.len()
{
    if i < s.len() && is_ichar_c(s[i]) {
        ident_end(s, i + 1)
    } else {
        i
    }
}

proof fn lemma_ident_end_range(s: Seq<char>, i: int)
    requires
        0 <= i <= s.len(),
    ensures
        i <= ident_end(s, i) <= s.len(),
    decreases s.len() - i,
{
    if i < s.len() && is_ichar_c(s[i]) {
        lemma_ident_end_range(s, i + 1);
    }
}

/// The first closing quote at or after a position, or the length.
pub open spec fn quote_end(s: Seq<char>, i: int) -> int
    decreases s.len() - i,
    when 0 <= i <= s.len()
{
    if i >= s.len() {
        i
    } else if s[i] == '\'' {
        i
    } else {
        quote_end(s, i + 1)
    }
}

proof fn lemma_quote_end_range(s: Seq<char>, i: int)
    requires
        0 <= i <= s.len(),
    ensures
        i <= quote_end(s, i) <= s.len(),
    decreases s.len() - i,
{
    if i < s.len() && s[i] != '\'' {
        lemma_quote_end_range(s, i + 1);
    }
}

/// Accumulates a decimal number from a position, failing on machine
/// overflow exactly as checked arithmetic does.
pub open spec fn scan_num(s: Seq<char>, i: int, v: i64) -> Result<(i64, int), ParseError>
    decreases s.len() - i,
    when 0 <= i <= s.len()
{
    if i < s.len() && is_digit_c(s[i]) {
        let d = ((s[i] as u32) - 48) as i64;
        match v.checked_mul(10) {
            None => Err(ParseError::BadNumber),
            Some(m) => match m.checked_add(d) {
                None => Err(ParseError::BadNumber),
                Some(w) => scan_num(s, i + 1, w),
            },
        }
    } else {
        Ok((v, i))
    }
}

proof fn lemma_scan_num_range(s: Seq<char>, i: int, v: i64)
    requires
        0 <= i <= s.len(),
    ensures
        scan_num(s, i, v) matches Ok(p) ==> i <= p.1 <= s.len(),
    decreases s.len() - i,
{
    if i < s.len() && is_digit_c(s[i]) {
        let d = ((s[i] as u32) - 48) as i64;
        if v.checked_mul(10) matches Some(m) {
            let m = v.checked_mul(10)->Some_0;
            if m.checked_add(d) matches Some(w) {
                lemma_scan_num_range(s, i + 1, m.checked_add(d)->Some_0);
            }
        }
    }
}

/// Prepends one token to a lexing outcome.
pub open spec fn lex_cons(t: TokM, rest: Result<Seq<TokM>, ParseError>) -> Result<
    Seq<TokM>,
    ParseError,
> {
    match rest {
        Ok(ts) => Ok(seq![t] + ts),
        Err(e) => Err(e),
    }
}

/// The meaning of lexing: the token sequence of the text from a
/// position on, or the first lexical error. Whitespace separates
/// tokens; an identifier run may be a keyword; a quoted run with no
/// closing quote, a lone `=`, `&` or `|`, a number overflowing the
/// machine range, and any other character are the errors.
pub open spec fn lex_model(s: Seq<char>, i: int) -> Result<Seq<TokM>, ParseError>
    decreases s.len() - i,
    when 0 <= i <= s.len()
    via lex_model_dec
{
    if i >= s.len() {
        Ok(Seq::empty())
    } else {
        let c = s[i];
        if crate::render::is_ws(c) {
            lex_model(s, i + 1)
        } else if is_digit_c(c) {
            let j1 = digits_end(s, i + 1);
            if j1 < s.len() && s[j1] == '.' && j1 + 1 < s.len() && is_digit_c(s[j1 + 1]) {
                let j2 = digits_end(s, j1 + 1);
                lex_cons(TokM::Dec(s.subrange(i, j2)), lex_model(s, j2))
            } else {
                match scan_num(s, i + 1, ((c as u32) - 48) as i64) {
                    Err(e) => Err(e),
                    Ok((v, j)) => lex_cons(TokM::Int(v), lex_model(s, j)),
                }
            }
        } else if is_istart_c(c) {
            let end = ident_end(s, i + 1);
            let w = s.subrange(i, end);
            let t = if w == "null"@ {
                TokM::KwNull
            } else if w == "true"@ {
                TokM::KwTrue
            } else if w == "false"@ {
                TokM::KwFalse
            } else {
                TokM::Ident(w)
            };
            lex_cons(t, lex_model(s, end))
        } else if c == '\'' {
            let j = quote_end(s, i + 1);
            if j >= s.len() {
                Err(ParseError::UnterminatedString)
            } else {
                lex_cons(TokM::Str(s.subrange(i + 1, j)), lex_model(s, j + 1))
            }
        } else if c == '(' {
            lex_cons(TokM::LPar, lex_model(s, i + 1))
        } else if c == ')' {
            lex_cons(TokM::RPar, lex_model(s, i + 1))
        } else if c == '[' {
            lex_cons(TokM::LBrack, lex_model(s, i + 1))
        } else if c == ']' {
            lex_cons(TokM::RBrack, lex_model(s, i + 1))
        } else if c == '.' {
            lex_cons(TokM::Dot, lex_model(s, i + 1))
        } else if c == '+' {
            lex_cons(TokM::Plus, lex_model(s, i + 1))
        } else if c == '-' {
            lex_cons(TokM::Minus, lex_model(s, i + 1))
        } else if c == '*' {
            lex_cons(TokM::Star, lex_model(s, i + 1))
        } else if c == '/' {
            lex_cons(TokM::Slash, lex_model(s, i + 1))
        } else if c == '%' {
            lex_cons(TokM::Percent, lex_model(s, i + 1))
        } else if c == '!' {
            if i + 1 < s.len() && s[i + 1] == '=' {
                lex_cons(TokM::NeQ, lex_model(s, i + 2))
            } else {
                lex_cons(TokM::Bang, lex_model(s, i + 1))
            }
        } else if c == '=' {
            if i + 1 < s.len() && s[i + 1] == '=' {
                lex_cons(TokM::EqEq, lex_model(s, i + 2))
            } else {
                Err(ParseError::BadChar)
            }
        } else if c == '<' {
            if i + 1 < s.len() && s[i + 1] == '=' {
                lex_cons(TokM::Le, lex_model(s, i + 2))
            } else {
                lex_cons(TokM::Lt, lex_model(s, i + 1))
            }
        } else if c == '>' {
            if i + 1 < s.len() && s[i + 1] == '=' {
                lex_cons(TokM::Ge, lex_model(s, i + 2))
            } else {
                lex_cons(TokM::Gt, lex_model(s, i + 1))
            }
        } else if c == '&' {
            if i + 1 < s.len() && s[i + 1] == '&' {
                lex_cons(TokM::AndAnd, lex_model(s, i + 2))
            } else {
                Err(ParseError::BadChar)
            }
        } else if c == '|' {
            if i + 1 < s.len() && s[i + 1] == '|' {
                lex_cons(TokM::OrOr, lex_model(s, i + 2))
            } else {
                Err(ParseError::BadChar)
            }
        } else {
            Err(ParseError::BadChar)
        }
    }
}

#[via_fn]
proof fn lex_model_dec(s: Seq<char>, i: int) {
    if 0 <= i < s.len() {
        let c = s[i];
        if is_digit_c(c) {
            lemma_digits_end_range(s, i + 1);
            let j1 = digits_end(s, i + 1);
            if j1 < s.len() && s[j1] == '.' && j1 + 1 < s.len() && is_digit_c(s[j1 + 1]) {
                lemma_digits_end_range(s, j1 + 1);
            }
            lemma_scan_num_range(s, i + 1, ((c as u32) - 48) as i64);
        } else if is_istart_c(c) {
            lemma_ident_end_range(s, i + 1);
        } else if c == '\'' {
            lemma_quote_end_range(s, i + 1);
        }
    }
}

/// How an executable lexing outcome matches the model's.
pub open spec fn matches_lex(
    r: Result<Vec<Token>, ParseError>,
    m: Result<Seq<TokM>, ParseError>,
) -> bool {
    match (r, m) {
        (Ok(ts), Ok(ms)) => toks_view(ts@) == ms,
        (Err(e1), Err(e2)) => e1 == e2,
        _ => false,
    }
}

/// Where an identifier's character run ends, executable form.
#[verifier::loop_isolation(false)]
fn ident_end_exec(cs: &Vec<char>, from: usize) -> (r: usize)
    requires
        from <= cs@.len(),
    ensures
        r == ident_end(cs@, from as int),
        from <= r <= cs@.len(),
    decreases cs@.len() - from,
{
    if from < cs.len() && is_ident_char(cs[from]) {
        ident_end_exec(cs, from + 1)
    } else {
        from
    }
}

/// Where a digit run ends, executable form.
fn digits_end_exec(cs: &Vec<char>, from: usize) -> (r: usize)
    requires
        from <= cs@.len(),
    ensures
        r == digits_end(cs@, from as int),
        from <= r <= cs@.len(),
    decreases cs@.len() - from,
{
    if from < cs.len() && is_digit(cs[from]) {
        digits_end_exec(cs, from + 1)
    } else {
        from
    }
}

/// The first closing quote at or after a position, executable form.
fn quote_end_exec(cs: &Vec<char>, from: usize) -> (r: usize)
    requires
        from <= cs@.len(),
    ensures
        r == quote_end(cs@, from as int),
        from <= r <= cs@.len(),
    decreases cs@.len() - from,
{
    if from >= cs.len() {
        from
    } else if cs[from] == '\'' {
        from
    } else {
        quote_end_exec(cs, from + 1)
    }
}

/// Accumulates a decimal number, executable form.
fn scan_num_exec(cs: &Vec<char>, from: usize, v: i64) -> (r: Result<(i64, usize), ParseError>)
    requires
        from <= cs@.len(),
    ensures
        match (r, scan_num(cs@, from as int, v)) {
            (Ok(p), Ok(q)) => p.0 == q.0 && p.1 == q.1 && from <= p.1 <= cs@.len(),
            (Err(e1), Err(e2)) => e1 == e2,
            _ => false,
        },
    decreases cs@.len() - from,
{
    if from < cs.len() && is_digit(cs[from]) {
        let d = ((cs[from] as u32) - 48) as i64;
        match v.checked_mul(10) {
            None => Err(ParseError::BadNumber),
            Some(m) => match m.checked_add(d) {
                None => Err(ParseError::BadNumber),
                Some(w) => scan_num_exec(cs, from + 1, w),
            },
        }
    } else {
        Ok((v, from))
    }
}

fn is_digit(c: char) -> (r: bool)
    ensures
        r == is_digit_c(c),
{
    let u = c as u32;
    48 <= u && u <= 57
}

fn is_ident_start(c: char) -> (r: bool)
    ensures
        r == is_istart_c(c),
{
    let u = c as u32;
    (65 <= u && u <= 90) || (97 <= u && u <= 122) || c == '_'
}

fn is_ident_char(c: char) -> (r: bool)
    ensures
        r == is_ichar_c(c),
{
    is_ident_start(c) || is_digit(c)
}

/// Prepends one token, executable form.
fn cons_tok(t: Token, rest: Result<Vec<Token>, ParseError>) -> (r: Result<
    Vec<Token>,
    ParseError,
>)
    ensures
        matches_lex(r, lex_cons(token_view(t), to_lex_model(rest))),
{
    let ghost m = to_lex_model(rest);
    match rest {
        Err(e) => Err(e),
        Ok(mut ts) => {
            let ghost tv = toks_view(ts@);
            let mut out: Vec<Token> = Vec::new();
            out.push(t);
            out.append(&mut ts);
            proof {
                assert(toks_view(out@) =~= seq![token_view(out@[0])] + tv);
            }
            Ok(out)
        },
    }
}

/// The model an executable lexing outcome stands for.
pub open spec fn to_lex_model(r: Result<Vec<Token>, ParseError>) -> Result<
    Seq<TokM>,
    ParseError,
> {
    match r {
        Ok(ts) => Ok(toks_view(ts@)),
        Err(e) => Err(e),
    }
}

/// Lexes the text from a position on; the outcome is exactly what the
/// model assigns.
#[verifier::loop_isolation(false)]
fn lex_exec(cs: &Vec<char>, i: usize) -> (r: Result<Vec<Token>, ParseError>)
    requires
        i <= cs@.len(),
    ensures
        matches_lex(r, lex_model(cs@, i as int)),
    decreases cs@.len() - i,
{
    let n = cs.len();
    if i >= n {
        let empty: Vec<Token> = Vec::new();
        proof {
            assert(toks_view(empty@) =~= Seq::<TokM>::empty());
        }
        return Ok(empty);
    }
    let c = cs[i];
    if c == ' ' || c == '\t' || c == '\n' || c == '\r' {
        lex_exec(cs, i + 1)
    } else if is_digit(c) {
        let j1 = digits_end_exec(cs, i + 1);
        if j1 < n && cs[j1] == '.' && j1 + 1 < n && is_digit(cs[j1 + 1]) {
            let j2 = digits_end_exec(cs, j1 + 1);
            let txt = crate::text::string_of(&crate::render::copy_range(cs, i, j2));
            cons_tok(Token::DecLit(txt), lex_exec(cs, j2))
        } else {
            match scan_num_exec(cs, i + 1, ((c as u32) - 48) as i64) {
                Err(e) => Err(e),
                Ok((v, j)) => cons_tok(Token::IntLit(v), lex_exec(cs, j)),
            }
        }
    } else if is_ident_start(c) {
        let end = ident_end_exec(cs, i + 1);
        let word = crate::text::string_of(&crate::render::copy_range(cs, i, end));
        let t = if crate::text::str_eq(word.as_str(), "null") {
            Token::KwNull
        } else if crate::text::str_eq(word.as_str(), "true") {
            Token::KwTrue
        } else if crate::text::str_eq(word.as_str(), "false") {
            Token::KwFalse
        } else {
            Token::Ident(word)
        };
        cons_tok(t, lex_exec(cs, end))
    } else if c == '\'' {
        let j = quote_end_exec(cs, i + 1);
        if j >= n {
            Err(ParseError::UnterminatedString)
        } else {
            let lit = crate::text::string_of(&crate::render::copy_range(cs, i + 1, j));
            cons_tok(Token::StrLit(lit), lex_exec(cs, j + 1))
        }
    } else if c == '(' {
        cons_tok(Token::LPar, lex_exec(cs, i + 1))
    } else if c == ')' {
        cons_tok(Token::RPar, lex_exec(cs, i + 1))
    } else if c == '[' {
        cons_tok(Token::LBrack, lex_exec(cs, i + 1))
    } else if c == ']' {
        cons_tok(Token::RBrack, lex_exec(cs, i + 1))
    } else if c == '.' {
        cons_tok(Token::Dot, lex_exec(cs, i + 1))
    } else if c == '+' {
        cons_tok(Token::Plus, lex_exec(cs, i + 1))
    } else if c == '-' {
        cons_tok(Token::Minus, lex_exec(cs, i + 1))
    } else if c == '*' {
        cons_tok(Token::Star, lex_exec(cs, i + 1))
    } else if c == '/' {
        cons_tok(Token::Slash, lex_exec(cs, i + 1))
    } else if c == '%' {
        cons_tok(Token::Percent, lex_exec(cs, i + 1))
    } else if c == '!' {
        if i + 1 < n && cs[i + 1] == '=' {
            cons_tok(Token::NeQ, lex_exec(cs, i + 2))
        } else {
            cons_tok(Token::Bang, lex_exec(cs, i + 1))
        }
    } else if c == '=' {
        if i + 1 < n && cs[i + 1] == '=' {
            cons_tok(Token::EqEq, lex_exec(cs, i + 2))
        } else {
            Err(ParseError::BadChar)
        }
    } else if c == '<' {
        if i + 1 < n && cs[i + 1] == '=' {
            cons_tok(Token::Le, lex_exec(cs, i + 2))
        } else {
            cons_tok(Token::Lt, lex_exec(cs, i + 1))
        }
    } else if c == '>' {
        if i + 1 < n && cs[i + 1] == '=' {
            cons_tok(Token::Ge, lex_exec(cs, i + 2))
        } else {
            cons_tok(Token::Gt, lex_exec(cs, i + 1))
        }
    } else if c == '&' {
        if i + 1 < n && cs[i + 1] == '&' {
            cons_tok(Token::AndAnd, lex_exec(cs, i + 2))
        } else {
            Err(ParseError::BadChar)
        }
    } else if c == '|' {
        if i + 1 < n && cs[i + 1] == '|' {
            cons_tok(Token::OrOr, lex_exec(cs, i + 2))
        } else {
            Err(ParseError::BadChar)
        }
    } else {
        Err(ParseError::BadChar)
    }
}

/// Splits expression text into tokens: exactly what `lex_model` says.
pub fn tokenize(s: &str) -> (r: Result<Vec<Token>, ParseError>)
    ensures
        matches_lex(r, lex_model(s@, 0)),
{
    let cs = crate::text::chars_of(s);
    lex_exec(&cs, 0)
}

/// The token a binary operator prints as.
pub open spec fn op_tok(b: BinOp) -> TokM {
    match b {
        BinOp::Add => TokM::Plus,
        BinOp::Sub => TokM::Minus,
        BinOp::Mul => TokM::Star,
        BinOp::Div => TokM::Slash,
        BinOp::Mod => TokM::Percent,
        BinOp::Eq => TokM::EqEq,
        BinOp::Ne => TokM::NeQ,
        BinOp::Lt => TokM::Lt,
        BinOp::Le => TokM::Le,
        BinOp::Gt => TokM::Gt,
        BinOp::Ge => TokM::Ge,
        BinOp::And => TokM::AndAnd,
        BinOp::Or => TokM::OrOr,
    }
}

/// The tokens one path step prints as.
pub open spec fn seg_toks(seg: PathSeg) -> Seq<TokM> {
    match seg {
        PathSeg::Name(n) => seq![TokM::Dot, TokM::Ident(n@)],
        PathSeg::Idx(k) => seq![TokM::LBrack, TokM::Int(k as i64), TokM::RBrack],
    }
}

/// The tokens a path prints as.
pub open spec fn path_toks(segs: Seq<PathSeg>) -> Seq<TokM>
    decreases segs.len(),
{
    if segs.len() == 0 {
        Seq::empty()
    } else {
        seg_toks(segs[0]) + path_toks(segs.drop_first())
    }
}

proof fn lemma_path_toks_push(segs: Seq<PathSeg>, seg: PathSeg)
    ensures
        path_toks(segs.push(seg)) == path_toks(segs) + seg_toks(seg),
    decreases segs.len(),
{
    assert(path_toks(Seq::<PathSeg>::empty()) == Seq::<TokM>::empty());
    if segs.len() == 0 {
        assert(segs.push(seg)[0] == seg);
        assert(segs.push(seg).drop_first() =~= Seq::<PathSeg>::empty());
        assert(seg_toks(seg) + Seq::<TokM>::empty() =~= seg_toks(seg));
        assert(Seq::<TokM>::empty() + seg_toks(seg) =~= seg_toks(seg));
    } else {
        assert(segs.push(seg)[0] == segs[0]);
        assert(segs.push(seg).drop_first() =~= segs.drop_first().push(seg));
        lemma_path_toks_push(segs.drop_first(), seg);
        assert(seg_toks(segs[0]) + (path_toks(segs.drop_first()) + seg_toks(seg)) =~= (seg_toks(
            segs[0],
        ) + path_toks(segs.drop_first())) + seg_toks(seg));
    }
}

/// The tokens an expression prints as. A parse result unparses to
/// exactly the tokens it consumed.
pub open spec fn unparse_toks(e: Expr) -> Seq<TokM>
    decreases e,
{
    match e {
        Expr::Lit(v) => match v {
            Value::Null => seq![TokM::KwNull],
            Value::Bool(b) => if b {
                seq![TokM::KwTrue]
            } else {
                seq![TokM::KwFalse]
            },
            Value::Int(k) => seq![TokM::Int(k)],
            Value::Dec(t) => seq![TokM::Dec(t@)],
            Value::Str(t) => seq![TokM::Str(t@)],
            _ => Seq::empty(),
        },
        Expr::Var(name, path) => seq![TokM::Ident(name@)] + path_toks(path@),
        Expr::Not(inner) => seq![TokM::Bang] + unparse_toks(*inner),
        Expr::Neg(inner) => seq![TokM::Minus] + unparse_toks(*inner),
        Expr::Paren(inner) => seq![TokM::LPar] + unparse_toks(*inner) + seq![TokM::RPar],
        Expr::Bin(b, x, y) => unparse_toks(*x) + seq![op_tok(b)] + unparse_toks(*y),
    }
}

/// A single token that is an expression on its own.
pub open spec fn is_atom(t: TokM) -> bool {
    match t {
        TokM::Int(_) => true,
        TokM::Dec(_) => true,
        TokM::Str(_) => true,
        TokM::Ident(_) => true,
        TokM::KwNull => true,
        TokM::KwTrue => true,
        TokM::KwFalse => true,
        _ => false,
    }
}

/// Parses a variable's path tail: `.name` and `[index]` steps.
#[verifier::loop_isolation(false)]
fn parse_path(toks: &Vec<Token>, pos: usize) -> (r: Result<(Vec<PathSeg>, usize), ParseError>)
    requires
        pos <= toks@.len(),
    ensures
        r matches Ok(p) ==> pos <= p.1 <= toks@.len() && path_toks(p.0@) == toks_view(
            toks@,
        ).subrange(pos as int, p.1 as int),
        pos == toks@.len() ==> (r matches Ok(p) && p.1 == pos),
        pos < toks@.len() && !(toks_view(toks@)[pos as int] matches TokM::Dot) && !(toks_view(
            toks@,
        )[pos as int] matches TokM::LBrack) ==> (r matches Ok(p) && p.1 == pos),
{
    let ghost tv = toks_view(toks@);
    let mut segs: Vec<PathSeg> = Vec::new();
    let mut i = pos;
    proof {
        assert(tv.subrange(pos as int, pos as int) =~= Seq::<TokM>::empty());
    }
    loop
        invariant
            pos <= i <= toks@.len(),
            path_toks(segs@) == tv.subrange(pos as int, i as int),
            i == pos || (tv[pos as int] matches TokM::Dot) || (tv[
                pos as int
            ] matches TokM::LBrack),
        decreases toks@.len() - i,
    {
        if i >= toks.len() {
            return Ok((segs, i));
        }
        proof {
            assert(tv[i as int] == token_view(toks@[i as int]));
        }
        match &toks[i] {
            Token::Dot => {
                if toks.len() - i > 1 {
                    match &toks[i + 1] {
                        Token::Ident(name) => {
                            let seg = PathSeg::Name(name.clone());
                            proof {
                                lemma_path_toks_push(segs@, seg);
                                assert(tv[i as int + 1] == token_view(toks@[i as int + 1]));
                                assert(tv.subrange(pos as int, i as int + 2) =~= tv.subrange(
                                    pos as int,
                                    i as int,
                                ) + seq![TokM::Dot, TokM::Ident(name@)]);
                            }
                            segs.push(seg);
                            i = i + 2;
                        },
                        _ => {
                            return Err(ParseError::Unexpected);
                        },
                    }
                } else {
                    return Err(ParseError::Unexpected);
                }
            },
            Token::LBrack => {
                if toks.len() - i > 2 {
                    match (&toks[i + 1], &toks[i + 2]) {
                        (Token::IntLit(k), Token::RBrack) => {
                            if *k < 0 {
                                return Err(ParseError::Unexpected);
                            }
                            if (*k as u64) > (usize::MAX as u64) {
                                return Err(ParseError::Unexpected);
                            }
                            let u: usize = (*k) as usize;
                            proof {
                                lemma_path_toks_push(segs@, PathSeg::Idx(u));
                                assert(tv[i as int + 1] == token_view(toks@[i as int + 1]));
                                assert(tv[i as int + 2] == token_view(toks@[i as int + 2]));
                                assert(tv.subrange(pos as int, i as int + 3) =~= tv.subrange(
                                    pos as int,
                                    i as int,
                                ) + seq![TokM::LBrack, TokM::Int(u as i64), TokM::RBrack]);
                            }
                            segs.push(PathSeg::Idx(u));
                            i = i + 3;
                        },
                        _ => {
                            return Err(ParseError::Unexpected);
                        },
                    }
                } else {
                    return Err(ParseError::Unexpected);
                }
            },
            _ => {
                return Ok((segs, i));
            },
        }
    }
}

/// Parses a primary expression: a literal, a variable path, a
/// parenthesised expression, or a unary operator application.
fn parse_primary(toks: &Vec<Token>, pos: usize) -> (r: Result<(Expr, usize), ParseError>)
    requires
        pos <= toks@.len(),
    ensures
        r matches Ok(p) ==> pos < p.1 <= toks@.len() && unparse_toks(p.0) == toks_view(
            toks@,
        ).subrange(pos as int, p.1 as int),
        pos + 1 == toks@.len() && is_atom(toks_view(toks@)[pos as int]) ==> (r matches Ok(p)
            && p.1 == toks@.len()),
    decreases toks@.len() - pos, 0int,
{
    let ghost tv = toks_view(toks@);
    if pos >= toks.len() {
        return Err(ParseError::Unexpected);
    }
    proof {
        assert(tv[pos as int] == token_view(toks@[pos as int]));
        assert(tv.subrange(pos as int, pos as int + 1) =~= seq![tv[pos as int]]);
    }
    match &toks[pos] {
        Token::IntLit(v) => Ok((Expr::Lit(Value::Int(*v)), pos + 1)),
        Token::DecLit(s) => Ok((Expr::Lit(Value::Dec(s.clone())), pos + 1)),
        Token::StrLit(s) => Ok((Expr::Lit(Value::Str(s.clone())), pos + 1)),
        Token::KwNull => Ok((Expr::Lit(Value::Null), pos + 1)),
        Token::KwTrue => Ok((Expr::Lit(Value::Bool(true)), pos + 1)),
        Token::KwFalse => Ok((Expr::Lit(Value::Bool(false)), pos + 1)),
        Token::Ident(name) => {
            match parse_path(toks, pos + 1) {
                Ok((segs, j)) => {
                    proof {
                        assert(tv.subrange(pos as int, j as int) =~= seq![TokM::Ident(name@)]
                            + tv.subrange(pos as int + 1, j as int));
                    }
                    Ok((Expr::Var(name.clone(), segs), j))
                },
                Err(e) => Err(e),
            }
        },
        Token::Bang => {
            match parse_primary(toks, pos + 1) {
                Ok((e, j)) => {
                    proof {
                        assert(tv.subrange(pos as int, j as int) =~= seq![TokM::Bang]
                            + tv.subrange(pos as int + 1, j as int));
                    }
                    Ok((Expr::Not(Box::new(e)), j))
                },
                Err(er) => Err(er),
            }
        },
        Token::Minus => {
            match parse_primary(toks, pos + 1) {
                Ok((e, j)) => {
                    proof {
                        assert(tv.subrange(pos as int, j as int) =~= seq![TokM::Minus]
                            + tv.subrange(pos as int + 1, j as int));
                    }
                    Ok((Expr::Neg(Box::new(e)), j))
                },
                Err(er) => Err(er),
            }
        },
        Token::LPar => {
            match parse_level(toks, pos + 1, 4) {
                Ok((e, j)) => {
                    if j < toks.len() && matches!(&toks[j], Token::RPar) {
                        proof {
                            assert(tv[j as int] == token_view(toks@[j as int]));
                            assert(tv.subrange(pos as int, j as int + 1) =~= seq![TokM::LPar]
                                + tv.subrange(pos as int + 1, j as int) + seq![TokM::RPar]);
                        }
                        Ok((Expr::Paren(Box::new(e)), j + 1))
                    } else {
                        Err(ParseError::Unexpected)
                    }
                },
                Err(er) => Err(er),
            }
        },
        _ => Err(ParseError::Unexpected),
    }
}

/// The binary operator a token carries at a precedence level, lowest
/// levels binding loosest: 4 `||`, 3 `&&`, 2 comparisons, 1 `+`/`-`,
/// 0 `*`/`/`/`%`.
fn level_op(t: &Token, level: u8) -> (r: Option<BinOp>)
    ensures
        r matches Some(b) ==> op_tok(b) == token_view(*t),
        is_atom(token_view(*t)) ==> r is None,
{
    match (t, level) {
        (Token::OrOr, 4) => Some(BinOp::Or),
        (Token::AndAnd, 3) => Some(BinOp::And),
        (Token::EqEq, 2) => Some(BinOp::Eq),
        (Token::NeQ, 2) => Some(BinOp::Ne),
        (Token::Lt, 2) => Some(BinOp::Lt),
        (Token::Le, 2) => Some(BinOp::Le),
        (Token::Gt, 2) => Some(BinOp::Gt),
        (Token::Ge, 2) => Some(BinOp::Ge),
        (Token::Plus, 1) => Some(BinOp::Add),
        (Token::Minus, 1) => Some(BinOp::Sub),
        (Token::Star, 0) => Some(BinOp::Mul),
        (Token::Slash, 0) => Some(BinOp::Div),
        (Token::Percent, 0) => Some(BinOp::Mod),
        _ => None,
    }
}

/// Parses a left-associative chain at one precedence level.
#[verifier::loop_isolation(false)]
fn parse_level(toks: &Vec<Token>, pos: usize, level: u8) -> (r: Result<
    (Expr, usize),
    ParseError,
>)
    requires
        pos <= toks@.len(),
        level <= 4,
    ensures
        r matches Ok(p) ==> pos < p.1 <= toks@.len() && unparse_toks(p.0) == toks_view(
            toks@,
        ).subrange(pos as int, p.1 as int),
        pos + 1 == toks@.len() && is_atom(toks_view(toks@)[pos as int]) ==> (r matches Ok(p)
            && p.1 == toks@.len()),
    decreases toks@.len() - pos, 1int + level,
{
    let ghost tv = toks_view(toks@);
    let first = if level == 0 {
        parse_primary(toks, pos)
    } else {
        parse_level(toks, pos, level - 1)
    };
    match first {
        Err(e) => Err(e),
        Ok((e0, j0)) => {
            let mut acc = e0;
            let mut j = j0;
            loop
                invariant
                    pos < j <= toks@.len(),
                    level <= 4,
                    unparse_toks(acc) == tv.subrange(pos as int, j as int),
                decreases toks@.len() - j,
            {
                if j >= toks.len() {
                    return Ok((acc, j));
                }
                proof {
                    assert(tv[j as int] == token_view(toks@[j as int]));
                }
                let op = level_op(&toks[j], level);
                match op {
                    None => {
                        return Ok((acc, j));
                    },
                    Some(b) => {
                        let next = if level == 0 {
                            parse_primary(toks, j + 1)
                        } else {
                            parse_level(toks, j + 1, level - 1)
                        };
                        match next {
                            Err(e) => {
                                return Err(e);
                            },
                            Ok((e1, j1)) => {
                                proof {
                                    assert(tv.subrange(pos as int, j1 as int) =~= tv.subrange(
                                        pos as int,
                                        j as int,
                                    ) + seq![op_tok(b)] + tv.subrange(j as int + 1, j1 as int));
                                }
                                acc = Expr::Bin(b, Box::new(acc), Box::new(e1));
                                j = j1;
                            },
                        }
                    },
                }
            }
        },
    }
}

/// Parses one whole expression. On success the result's tokens are
/// exactly the input's: unparsing re-tokenizes to `lex_model(s)`. A
/// lexical error comes back unchanged; a single literal or variable
/// token is owed success.
pub fn parse_expr(s: &str) -> (r: Result<Expr, ParseError>)
    ensures
        r matches Ok(e) ==> lex_model(s@, 0) matches Ok(ms) && unparse_toks(e) == ms,
        lex_model(s@, 0) matches Err(le) ==> r == Err::<Expr, ParseError>(le),
        (lex_model(s@, 0) matches Ok(ms) && ms.len() == 1 && is_atom(ms[0])) ==> r is Ok,
{
    let toks = match tokenize(s) {
        Ok(t) => t,
        Err(e) => {
            return Err(e);
        },
    };
    match parse_level(&toks, 0, 4) {
        Err(e) => Err(e),
        Ok((e, j)) => {
            if j == toks.len() {
                proof {
                    assert(toks_view(toks@).subrange(0, toks@.len() as int) =~= toks_view(
                        toks@,
                    ));
                }
                Ok(e)
            } else {
                Err(ParseError::TrailingInput)
            }
        },
    }
}

/// One segment of mapper text: literal SQL, or the body text of a
/// `#{}` or `${}` placeholder.
pub enum SegM {
    Lit(Seq<char>),
    Hash(Seq<char>),
    Dollar(Seq<char>),
}

/// Whether a `#{` or `${` marker starts at a position.
pub open spec fn marker_at(s: Seq<char>, i: int) -> bool {
    (s[i] == '#' || s[i] == '$') && i + 1 < s.len() && s[i + 1] == '{'
}

/// The first marker at or after a position, or the length.
pub open spec fn next_marker(s: Seq<char>, i: int) -> int
    decreases s.len() - i,
    when 0 <= i <= s.len()
{
    if i >= s.len() {
        i
    } else if marker_at(s, i) {
        i
    } else {
        next_marker(s, i + 1)
    }
}

proof fn lemma_next_marker_range(s: Seq<char>, i: int)
    requires
        0 <= i <= s.len(),
    ensures
        i <= next_marker(s, i) <= s.len(),
        next_marker(s, i) < s.len() ==> marker_at(s, next_marker(s, i)),
    decreases s.len() - i,
{
    if i < s.len() && !marker_at(s, i) {
        lemma_next_marker_range(s, i + 1);
    }
}

/// The first closing brace at or after a position, or the length.
pub open spec fn brace_end(s: Seq<char>, i: int) -> int
    decreases s.len() - i,
    when 0 <= i <= s.len()
{
    if i >= s.len() {
        i
    } else if s[i] == '}' {
        i
    } else {
        brace_end(s, i + 1)
    }
}

proof fn lemma_brace_end_range(s: Seq<char>, i: int)
    requires
        0 <= i <= s.len(),
    ensures
        i <= brace_end(s, i) <= s.len(),
    decreases s.len() - i,
{
    if i < s.len() && s[i] != '}' {
        lemma_brace_end_range(s, i + 1);
    }
}

/// The meaning of splitting mapper text: literal runs up to each
/// `#{`/`${` marker, each placeholder's body up to its closing brace;
/// a marker with no closing brace is the one error.
pub open spec fn split_model(s: Seq<char>, i: int) -> Result<Seq<SegM>, ParseError>
    decreases s.len() - i,
    when 0 <= i <= s.len()
    via split_model_dec
{
    let m = next_marker(s, i);
    if m >= s.len() {
        if i < s.len() {
            Ok(seq![SegM::Lit(s.subrange(i, s.len() as int))])
        } else {
            Ok(Seq::empty())
        }
    } else {
        let j = brace_end(s, m + 2);
        if j >= s.len() {
            Err(ParseError::Unexpected)
        } else {
            let body = s.subrange(m + 2, j);
            let seg = if s[m] == '#' {
                SegM::Hash(body)
            } else {
                SegM::Dollar(body)
            };
            match split_model(s, j + 1) {
                Err(e) => Err(e),
                Ok(rest) => if m > i {
                    Ok(seq![SegM::Lit(s.subrange(i, m)), seg] + rest)
                } else {
                    Ok(seq![seg] + rest)
                },
            }
        }
    }
}

#[via_fn]
proof fn split_model_dec(s: Seq<char>, i: int) {
    if 0 <= i <= s.len() {
        lemma_next_marker_range(s, i);
        let m = next_marker(s, i);
        if m < s.len() {
            assert(marker_at(s, m));
            lemma_brace_end_range(s, m + 2);
        }
    }
}

/// How parsed parts match split segments: literal text kept exactly;
/// each placeholder part holding an expression that unparses to its
/// body's tokens.
pub open spec fn parts_match(parts: Seq<crate::node::Part>, segs: Seq<SegM>) -> bool {
    parts.len() == segs.len() && forall|k: int|
        0 <= k < parts.len() ==> match (#[trigger] parts[k], segs[k]) {
            (crate::node::Part::Lit(t), SegM::Lit(u)) => t@ == u,
            (crate::node::Part::Hash(e), SegM::Hash(b)) => lex_model(b, 0) matches Ok(ms)
                && unparse_toks(e) == ms,
            (crate::node::Part::Dollar(e), SegM::Dollar(b)) => lex_model(b, 0) matches Ok(ms)
                && unparse_toks(e) == ms,
            _ => false,
        }
}

/// The first marker at or after a position, executable form.
fn next_marker_exec(cs: &Vec<char>, from: usize) -> (r: usize)
    requires
        from <= cs@.len(),
    ensures
        r == next_marker(cs@, from as int),
        from <= r <= cs@.len(),
    decreases cs@.len() - from,
{
    if from >= cs.len() {
        from
    } else if (cs[from] == '#' || cs[from] == '$') && from + 1 < cs.len() && cs[from + 1] == '{' {
        from
    } else {
        next_marker_exec(cs, from + 1)
    }
}

/// The first closing brace at or after a position, executable form.
fn brace_end_exec(cs: &Vec<char>, from: usize) -> (r: usize)
    requires
        from <= cs@.len(),
    ensures
        r == brace_end(cs@, from as int),
        from <= r <= cs@.len(),
    decreases cs@.len() - from,
{
    if from >= cs.len() {
        from
    } else if cs[from] == '}' {
        from
    } else {
        brace_end_exec(cs, from + 1)
    }
}

/// Splits the text from a position on and parses each placeholder body.
fn split_exec(cs: &Vec<char>, i: usize) -> (r: Result<Vec<crate::node::Part>, ParseError>)
    requires
        i <= cs@.len(),
    ensures
        r matches Ok(parts) ==> split_model(cs@, i as int) matches Ok(segs) && parts_match(
            parts@,
            segs,
        ),
        split_model(cs@, i as int) matches Err(_) ==> r is Err,
    decreases cs@.len() - i,
{
    let n = cs.len();
    let m = next_marker_exec(cs, i);
    proof {
        lemma_next_marker_range(cs@, i as int);
    }
    if m >= n {
        if i < n {
            let lit = crate::text::string_of(&crate::render::copy_range(cs, i, n));
            let mut parts: Vec<crate::node::Part> = Vec::new();
            parts.push(crate::node::Part::Lit(lit));
            return Ok(parts);
        } else {
            let parts: Vec<crate::node::Part> = Vec::new();
            return Ok(parts);
        }
    }
    let j = brace_end_exec(cs, m + 2);
    if j >= n {
        return Err(ParseError::Unexpected);
    }
    let body = crate::text::string_of(&crate::render::copy_range(cs, m + 2, j));
    let e = match parse_expr(body.as_str()) {
        Ok(e) => e,
        Err(er) => {
            return Err(er);
        },
    };
    let seg = if cs[m] == '#' {
        crate::node::Part::Hash(e)
    } else {
        crate::node::Part::Dollar(e)
    };
    match split_exec(cs, j + 1) {
        Err(er) => Err(er),
        Ok(mut rest) => {
            let ghost restv = rest@;
            let mut parts: Vec<crate::node::Part> = Vec::new();
            if m > i {
                let lit = crate::text::string_of(&crate::render::copy_range(cs, i, m));
                parts.push(crate::node::Part::Lit(lit));
            }
            parts.push(seg);
            parts.append(&mut rest);
            proof {
                let segs = split_model(cs@, i as int)->Ok_0;
                let rsegs = split_model(cs@, j as int + 1)->Ok_0;
                assert forall|k: int|
                    0 <= k < parts@.len() implies match (#[trigger] parts@[k], segs[k]) {
                    (crate::node::Part::Lit(t), SegM::Lit(u)) => t@ == u,
                    (crate::node::Part::Hash(e2), SegM::Hash(b)) => lex_model(b, 0) matches Ok(
                        ms,
                    ) && unparse_toks(e2) == ms,
                    (crate::node::Part::Dollar(e2), SegM::Dollar(b)) => lex_model(b, 0)
                        matches Ok(ms) && unparse_toks(e2) == ms,
                    _ => false,
                } by {
                    let lead: int = if m > i {
                        2
                    } else {
                        1
                    };
                    if k >= lead {
                        assert(parts@[k] == restv[k - lead]);
                        assert(segs[k] == rsegs[k - lead]);
                    }
                }
            }
            Ok(parts)
        },
    }
}

/// Splits mapper text into literal, `#{}` and `${}` parts, parsing each
/// placeholder's expression: the segments are exactly what
/// `split_model` says, and each part's expression unparses to its
/// body's tokens. Text with no unterminated marker and no placeholder
/// whose body fails the expression grammar is owed success; in
/// particular marker-free text always yields its literal parts.
pub fn parse_text(s: &str) -> (r: Result<Vec<crate::node::Part>, ParseError>)
    ensures
        r matches Ok(parts) ==> split_model(s@, 0) matches Ok(segs) && parts_match(
            parts@,
            segs,
        ),
        split_model(s@, 0) matches Err(_) ==> r is Err,
{
    let cs = crate::text::chars_of(s);
    split_exec(&cs, 0)
}


} // verus!
