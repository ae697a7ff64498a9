use vstd::prelude::*;

use crate::awk_lexer::{is_sym, lex, newlines_before, regex_lit, LexErrKind, Lexed, SpecTK, Sym};
use crate::awk_parser::{Expr, Function, Op, ParseError, Pattern, Redirect, Rule, Stmt};
use crate::text::views;

verus! {

// ---------------------------------------------------------------------------
// The syntax tree as mathematical values
// ---------------------------------------------------------------------------

/// An expression, with names and literals as character sequences.
pub enum SExpr {
    Num(Seq<char>),
    Str(Seq<char>),
    Regex(Seq<char>),
    Field(Box<SExpr>),
    Var(Seq<char>),
    Array(Seq<char>, Seq<SExpr>),
    Assign(Box<SExpr>, Box<SExpr>),
    CompoundAssign(Op, Box<SExpr>, Box<SExpr>),
    PreIncDec(Op, Box<SExpr>),
    PostIncDec(Box<SExpr>, Op),
    Unary(Op, Box<SExpr>),
    Binary(Op, Box<SExpr>, Box<SExpr>),
    Ternary(Box<SExpr>, Box<SExpr>, Box<SExpr>),
    Match(Box<SExpr>, Box<SExpr>),
    Call(Seq<char>, Seq<SExpr>),
    Getline(Option<Box<SExpr>>),
    InArray(Box<SExpr>, Seq<char>),
    Concat(Seq<SExpr>),
}

pub open spec fn sexpr(e: Expr) -> SExpr
    decreases e,
{
    match e {
        Expr::Num(s) => SExpr::Num(s@),
        Expr::Str(s) => SExpr::Str(s@),
        Expr::Regex(s) => SExpr::Regex(s@),
        Expr::Field(b) => SExpr::Field(Box::new(sexpr(*b))),
        Expr::Var(s) => SExpr::Var(s@),
        Expr::Array(n, ks) => SExpr::Array(n@, sexprs(ks@)),
        Expr::Assign(a, b) => SExpr::Assign(Box::new(sexpr(*a)), Box::new(sexpr(*b))),
        Expr::CompoundAssign(op, a, b) => SExpr::CompoundAssign(
            op,
            Box::new(sexpr(*a)),
            Box::new(sexpr(*b)),
        ),
        Expr::PreIncDec(op, a) => SExpr::PreIncDec(op, Box::new(sexpr(*a))),
        Expr::PostIncDec(a, op) => SExpr::PostIncDec(Box::new(sexpr(*a)), op),
        Expr::Unary(op, a) => SExpr::Unary(op, Box::new(sexpr(*a))),
        Expr::Binary(op, a, b) => SExpr::Binary(op, Box::new(sexpr(*a)), Box::new(sexpr(*b))),
        Expr::Ternary(a, b, c) => SExpr::Ternary(
            Box::new(sexpr(*a)),
            Box::new(sexpr(*b)),
            Box::new(sexpr(*c)),
        ),
        Expr::Match(a, b) => SExpr::Match(Box::new(sexpr(*a)), Box::new(sexpr(*b))),
        Expr::Call(n, args) => SExpr::Call(n@, sexprs(args@)),
        Expr::Getline(v) => SExpr::Getline(
            match v {
                Some(b) => Some(Box::new(sexpr(*b))),
                None => None,
            },
        ),
        Expr::InArray(a, n) => SExpr::InArray(Box::new(sexpr(*a)), n@),
        Expr::Concat(parts) => SExpr::Concat(sexprs(parts@)),
    }
}

pub open spec fn sexprs(v: Seq<Expr>) -> Seq<SExpr>
    decreases v,
{
    if v.len() == 0 {
        Seq::empty()
    } else {
        sexprs(v.drop_last()).push(sexpr(v.last()))
    }
}

/// The views of a list with one more expression.
pub proof fn lemma_sexprs_push(v: Seq<Expr>, e: Expr)
    ensures
        sexprs(v.push(e)) == sexprs(v).push(sexpr(e)),
{
    assert(v.push(e).drop_last() =~= v);
}

pub proof fn lemma_sexprs_len(v: Seq<Expr>)
    ensures
        sexprs(v).len() == v.len(),
    decreases v.len(),
{
    if v.len() > 0 {
        lemma_sexprs_len(v.drop_last());
    }
}

pub proof fn lemma_sexprs_empty()
    ensures
        sexprs(Seq::<Expr>::empty()) == Seq::<SExpr>::empty(),
{
}

/// An output redirection.
pub enum SRedirect {
    File(SExpr),
    Append(SExpr),
    Pipe(SExpr),
}

pub open spec fn sredirect(r: Redirect) -> SRedirect {
    match r {
        Redirect::File(e) => SRedirect::File(sexpr(e)),
        Redirect::Append(e) => SRedirect::Append(sexpr(e)),
        Redirect::Pipe(e) => SRedirect::Pipe(sexpr(e)),
    }
}

pub open spec fn sredirect_opt(r: Option<Redirect>) -> Option<SRedirect> {
    match r {
        Some(x) => Some(sredirect(x)),
        None => None,
    }
}

/// A statement, with names and literals as character sequences.
pub enum SStmt {
    Block(Seq<SStmt>),
    Expr(SExpr),
    Print(Seq<SExpr>, Option<SRedirect>),
    Printf(Seq<SExpr>, Option<SRedirect>),
    If(SExpr, Box<SStmt>, Option<Box<SStmt>>),
    While(SExpr, Box<SStmt>),
    DoWhile(Box<SStmt>, SExpr),
    For(Option<Box<SStmt>>, Option<SExpr>, Option<Box<SStmt>>, Box<SStmt>),
    ForIn(Seq<char>, Seq<char>, Box<SStmt>),
    Break,
    Continue,
    Next,
    Exit(Option<SExpr>),
    Return(Option<SExpr>),
    Delete(Seq<char>, Option<Seq<SExpr>>),
    Empty,
}

pub open spec fn sexpr_opt(e: Option<Expr>) -> Option<SExpr> {
    match e {
        Some(x) => Some(sexpr(x)),
        None => None,
    }
}

pub open spec fn sstmt(st: Stmt) -> SStmt
    decreases st,
{
    match st {
        Stmt::Block(v) => SStmt::Block(sstmts(v@)),
        Stmt::Expr(e) => SStmt::Expr(sexpr(e)),
        Stmt::Print(args, r) => SStmt::Print(sexprs(args@), sredirect_opt(r)),
        Stmt::Printf(args, r) => SStmt::Printf(sexprs(args@), sredirect_opt(r)),
        Stmt::If(c, t, e) => SStmt::If(
            sexpr(c),
            Box::new(sstmt(*t)),
            match e {
                Some(b) => Some(Box::new(sstmt(*b))),
                None => None,
            },
        ),
        Stmt::While(c, b) => SStmt::While(sexpr(c), Box::new(sstmt(*b))),
        Stmt::DoWhile(b, c) => SStmt::DoWhile(Box::new(sstmt(*b)), sexpr(c)),
        Stmt::For(i, c, p, b) => SStmt::For(
            match i {
                Some(x) => Some(Box::new(sstmt(*x))),
                None => None,
            },
            sexpr_opt(c),
            match p {
                Some(x) => Some(Box::new(sstmt(*x))),
                None => None,
            },
            Box::new(sstmt(*b)),
        ),
        Stmt::ForIn(v, a, b) => SStmt::ForIn(v@, a@, Box::new(sstmt(*b))),
        Stmt::Break => SStmt::Break,
        Stmt::Continue => SStmt::Continue,
        Stmt::Next => SStmt::Next,
        Stmt::Exit(e) => SStmt::Exit(sexpr_opt(e)),
        Stmt::Return(e) => SStmt::Return(sexpr_opt(e)),
        Stmt::Delete(n, ks) => SStmt::Delete(
            n@,
            match ks {
                Some(v) => Some(sexprs(v@)),
                None => None,
            },
        ),
        Stmt::Empty => SStmt::Empty,
    }
}

/// A boxed statement, as an optional one.
pub open spec fn sstmt_box(b: Option<Box<Stmt>>) -> Option<Box<SStmt>> {
    match b {
        Some(x) => Some(Box::new(sstmt(*x))),
        None => None,
    }
}

pub open spec fn sstmts(v: Seq<Stmt>) -> Seq<SStmt>
    decreases v,
{
    if v.len() == 0 {
        Seq::empty()
    } else {
        sstmts(v.drop_last()).push(sstmt(v.last()))
    }
}

pub proof fn lemma_sstmts_push(v: Seq<Stmt>, x: Stmt)
    ensures
        sstmts(v.push(x)) == sstmts(v).push(sstmt(x)),
{
    assert(v.push(x).drop_last() =~= v);
}

pub proof fn lemma_sstmts_empty()
    ensures
        sstmts(Seq::<Stmt>::empty()) == Seq::<SStmt>::empty(),
{
}

pub enum SPattern {
    Begin,
    End,
    Expr(SExpr),
    Range(SExpr, SExpr),
    Always,
}

pub open spec fn spattern(p: Pattern) -> SPattern {
    match p {
        Pattern::Begin => SPattern::Begin,
        Pattern::End => SPattern::End,
        Pattern::Expr(e) => SPattern::Expr(sexpr(e)),
        Pattern::Range(a, b) => SPattern::Range(sexpr(a), sexpr(b)),
        Pattern::Always => SPattern::Always,
    }
}

pub struct SRule {
    pub pattern: SPattern,
    pub action: SStmt,
}

pub open spec fn srule(r: Rule) -> SRule {
    SRule { pattern: spattern(r.pattern), action: sstmt(r.action) }
}

pub open spec fn srules(v: Seq<Rule>) -> Seq<SRule> {
    v.map_values(|r: Rule| srule(r))
}

pub struct SFunction {
    pub params: Seq<Seq<char>>,
    pub body: SStmt,
}

pub open spec fn sfunction(f: Function) -> SFunction {
    SFunction { params: views(f.params@), body: sstmt(f.body) }
}

pub open spec fn sfunctions(v: Seq<(String, Function)>) -> Seq<(Seq<char>, SFunction)> {
    v.map_values(|p: (String, Function)| (p.0@, sfunction(p.1)))
}

/// `fs` with `name` bound to `f`: the first binding of `name` replaced, or a new
/// binding at the end.
pub open spec fn sdefine(fs: Seq<(Seq<char>, SFunction)>, name: Seq<char>, f: SFunction) -> Seq<
    (Seq<char>, SFunction),
>
    decreases fs.len(),
{
    if fs.len() == 0 {
        seq![(name, f)]
    } else if fs[0].0 == name {
        fs.update(0, (name, f))
    } else {
        seq![fs[0]] + sdefine(fs.skip(1), name, f)
    }
}

/// Why a program could not be parsed, with lines as integers.
pub enum SParseError {
    Lex(LexErrKind, int),
    Expected(Sym, int, SpecTK),
    ExpectedFunctionName(int),
    UnclosedBlock,
    ExpectedArrayAfterDelete(int),
    ExpectedArrayAfterIn(int),
    ExpectedRegex(int),
    UnexpectedToken(SpecTK, int),
    /// A step that consumed nothing; the parser never takes one.
    Stalled,
}

impl View for ParseError {
    type V = SParseError;

    open spec fn view(&self) -> SParseError {
        match self {
            ParseError::Lex(e) => SParseError::Lex(e.kind, e.line as int),
            ParseError::Expected { expected, line, got } => SParseError::Expected(
                *expected,
                *line as int,
                got@,
            ),
            ParseError::ExpectedFunctionName(l) => SParseError::ExpectedFunctionName(*l as int),
            ParseError::UnclosedBlock => SParseError::UnclosedBlock,
            ParseError::ExpectedArrayAfterDelete(l) => SParseError::ExpectedArrayAfterDelete(
                *l as int,
            ),
            ParseError::ExpectedArrayAfterIn(l) => SParseError::ExpectedArrayAfterIn(*l as int),
            ParseError::ExpectedRegex(l) => SParseError::ExpectedRegex(*l as int),
            ParseError::UnexpectedToken(k, l) => SParseError::UnexpectedToken(k@, *l as int),
        }
    }
}

// ---------------------------------------------------------------------------
// The parser's state and its moves
// ---------------------------------------------------------------------------

/// Where the parser stands: the current token and its line, the position of the
/// lexer, and the token read ahead, if any.
pub struct PState {
    pub cur: SpecTK,
    pub line: int,
    pub pos: int,
    pub peeked: Option<(SpecTK, int)>,
}

pub open spec fn tweight(k: SpecTK) -> int {
    if is_sym(k, Sym::Eof) {
        0
    } else {
        1
    }
}

/// The input left plus the tokens read but not consumed.
pub open spec fn pmeasure(s: Seq<char>, st: PState) -> int {
    (s.len() + 1 - st.pos) + tweight(st.cur) + match st.peeked {
        Some((k, _)) => tweight(k),
        None => 0,
    }
}

/// `b` has consumed more than `a`.
pub open spec fn ahead(s: Seq<char>, b: PState, a: PState) -> bool {
    0 <= pmeasure(s, b) < pmeasure(s, a)
}

pub open spec fn at(st: PState, k: Sym) -> bool {
    is_sym(st.cur, k)
}

/// Moving on by one token.
#[verifier::opaque]
pub open spec fn adv(s: Seq<char>, st: PState) -> Result<PState, SParseError> {
    match st.peeked {
        Some((k, l)) => Ok(PState { cur: k, line: l, pos: st.pos, peeked: None }),
        None => match lex(s, st.pos) {
            Lexed::Tok(t, b, e) => Ok(
                PState { cur: t, line: (1 + newlines_before(s, b)) as int, pos: e, peeked: None },
            ),
            Lexed::Fail(k, b) => Err(SParseError::Lex(k, (1 + newlines_before(s, b)) as int)),
        },
    }
}

/// Consuming a token of kind `k`, or failing when the current token is another.
pub open spec fn pexpect(s: Seq<char>, st: PState, k: Sym) -> Result<PState, SParseError> {
    if at(st, k) {
        adv(s, st)
    } else {
        Err(SParseError::Expected(k, st.line, st.cur))
    }
}

pub open spec fn stmt_end(st: PState) -> bool {
    at(st, Sym::Newline) || at(st, Sym::Semi) || at(st, Sym::RBrace) || at(st, Sym::Eof)
}

/// The tokens before which a concatenation stops.
pub open spec fn concat_stops(st: PState) -> bool {
    ||| stmt_end(st)
    ||| st.cur matches SpecTK::Sym(k) && (k == Sym::Comma || k == Sym::RParen || k == Sym::RBrack
        || k == Sym::Pipe || k == Sym::Gt || k == Sym::Append || k == Sym::Question || k
        == Sym::Colon || k == Sym::Eq || k == Sym::PlusEq || k == Sym::MinusEq || k == Sym::StarEq
        || k == Sym::SlashEq || k == Sym::PercentEq || k == Sym::CaretEq || k == Sym::And || k
        == Sym::Or || k == Sym::Tilde || k == Sym::BangTilde || k == Sym::In || k == Sym::Lt || k
        == Sym::LtEq || k == Sym::GtEq || k == Sym::EqEq || k == Sym::BangEq || k == Sym::LBrace)
}

// ---------------------------------------------------------------------------
// The expression grammar
// ---------------------------------------------------------------------------
//
// Each function gives what the parser function of the same name produces from a
// state: the tree and the state after it, or the error it stops with. A step is
// taken only when the input consumed has grown, which is what bounds the recursion;
// the parser always grows it, so `Stalled` never comes out of a real parse.

pub closed spec fn p_more(s: Seq<char>, acc: Seq<SExpr>, st: PState) -> Result<
    (Seq<SExpr>, PState),
    SParseError,
>
    decreases pmeasure(s, st), 0int,
{
    if at(st, Sym::Comma) {
        match adv(s, st) {
            Err(e) => Err(e),
            Ok(st1) => if !ahead(s, st1, st) {
                Err(SParseError::Stalled)
            } else {
                match p_expr(s, st1) {
                    Err(e) => Err(e),
                    Ok((e, st2)) => if !ahead(s, st2, st) {
                        Err(SParseError::Stalled)
                    } else {
                        p_more(s, acc.push(e), st2)
                    },
                }
            },
        }
    } else {
        Ok((acc, st))
    }
}

/// The expressions of a list that starts at `st` (one at least), then `closing`.
pub closed spec fn p_list(s: Seq<char>, st: PState, closing: Sym) -> Result<
    (Seq<SExpr>, PState),
    SParseError,
>
    decreases pmeasure(s, st), 15int,
{
    match p_expr(s, st) {
        Err(e) => Err(e),
        Ok((e0, st1)) => if !ahead(s, st1, st) {
            Err(SParseError::Stalled)
        } else {
            match p_more(s, seq![e0], st1) {
                Err(e) => Err(e),
                Ok((es, st2)) => match pexpect(s, st2, closing) {
                    Err(e) => Err(e),
                    Ok(st3) => Ok((es, st3)),
                },
            }
        },
    }
}

/// The state after a regular expression literal whose body starts at `pos`.
pub closed spec fn p_regex_at(s: Seq<char>, pos: int) -> Result<(SExpr, PState), SParseError> {
    match regex_lit(s, pos) {
        None => Err(
            SParseError::Lex(LexErrKind::UnterminatedRegex, (1 + newlines_before(s, pos)) as int),
        ),
        Some((t, e)) => match lex(s, e) {
            Lexed::Tok(t2, b, e2) => Ok(
                (
                    SExpr::Regex(t),
                    PState {
                        cur: t2,
                        line: (1 + newlines_before(s, b)) as int,
                        pos: e2,
                        peeked: None,
                    },
                ),
            ),
            Lexed::Fail(k, b) => Err(SParseError::Lex(k, (1 + newlines_before(s, b)) as int)),
        },
    }
}

pub closed spec fn p_primary(s: Seq<char>, st: PState) -> Result<(SExpr, PState), SParseError>
    decreases pmeasure(s, st), 1int,
{
    match st.cur {
        SpecTK::Num(t) => match adv(s, st) {
            Err(e) => Err(e),
            Ok(st1) => Ok((SExpr::Num(t), st1)),
        },
        SpecTK::Str(t) => match adv(s, st) {
            Err(e) => Err(e),
            Ok(st1) => Ok((SExpr::Str(t), st1)),
        },
        SpecTK::Ident(name) => match adv(s, st) {
            Err(e) => Err(e),
            Ok(st1) => p_name_tail(s, name, st1, st),
        },
        SpecTK::Regex(_) => Err(SParseError::UnexpectedToken(st.cur, st.line)),
        SpecTK::Sym(k) => p_sym_primary(s, k, st),
    }
}

/// What follows a name that was read at `st`, the state being `st1` after it: an
/// array element, a call, or the variable itself.
pub closed spec fn p_name_tail(s: Seq<char>, name: Seq<char>, st1: PState, st: PState) -> Result<
    (SExpr, PState),
    SParseError,
>
    decreases pmeasure(s, st), 0int,
{
    if at(st1, Sym::LBrack) {
        match adv(s, st1) {
            Err(e) => Err(e),
            Ok(st2) => if !ahead(s, st2, st) {
                Err(SParseError::Stalled)
            } else {
                match p_list(s, st2, Sym::RBrack) {
                    Err(e) => Err(e),
                    Ok((keys, st3)) => Ok((SExpr::Array(name, keys), st3)),
                }
            },
        }
    } else if at(st1, Sym::LParen) {
        match adv(s, st1) {
            Err(e) => Err(e),
            Ok(st2) => if at(st2, Sym::RParen) {
                match adv(s, st2) {
                    Err(e) => Err(e),
                    Ok(st3) => Ok((SExpr::Call(name, Seq::empty()), st3)),
                }
            } else if !ahead(s, st2, st) {
                Err(SParseError::Stalled)
            } else {
                match p_list(s, st2, Sym::RParen) {
                    Err(e) => Err(e),
                    Ok((args, st3)) => Ok((SExpr::Call(name, args), st3)),
                }
            },
        }
    } else {
        Ok((SExpr::Var(name), st1))
    }
}

/// A primary expression that starts with the symbol `k`.
pub closed spec fn p_sym_primary(s: Seq<char>, k: Sym, st: PState) -> Result<(SExpr, PState), SParseError>
    decreases pmeasure(s, st), 0int,
{
    if k == Sym::Dollar || k == Sym::LParen || k == Sym::Bang {
        match adv(s, st) {
            Err(e) => Err(e),
            Ok(st1) => if !ahead(s, st1, st) {
                Err(SParseError::Stalled)
            } else if k == Sym::Dollar {
                match p_unary(s, st1) {
                    Err(e) => Err(e),
                    Ok((e, st2)) => Ok((SExpr::Field(Box::new(e)), st2)),
                }
            } else if k == Sym::LParen {
                match p_expr(s, st1) {
                    Err(e) => Err(e),
                    Ok((e, st2)) => match pexpect(s, st2, Sym::RParen) {
                        Err(x) => Err(x),
                        Ok(st3) => Ok((e, st3)),
                    },
                }
            } else {
                match p_primary(s, st1) {
                    Err(e) => Err(e),
                    Ok((e, st2)) => Ok((SExpr::Unary(Op::Not, Box::new(e)), st2)),
                }
            },
        }
    } else if k == Sym::Slash {
        match st.peeked {
            Some(_) => match adv(s, st) {
                Err(e) => Err(e),
                Ok(st1) => p_regex_at(s, st1.pos),
            },
            None => p_regex_at(s, st.pos),
        }
    } else if k == Sym::Getline {
        match adv(s, st) {
            Err(e) => Err(e),
            Ok(st1) => match st1.cur {
                SpecTK::Ident(v) => match adv(s, st1) {
                    Err(e) => Err(e),
                    Ok(st2) => Ok((SExpr::Getline(Some(Box::new(SExpr::Var(v)))), st2)),
                },
                _ => Ok((SExpr::Getline(None), st1)),
            },
        }
    } else {
        Err(SParseError::UnexpectedToken(st.cur, st.line))
    }
}

pub closed spec fn p_postfix(s: Seq<char>, st: PState) -> Result<(SExpr, PState), SParseError>
    decreases pmeasure(s, st), 2int,
{
    match p_primary(s, st) {
        Err(e) => Err(e),
        Ok((e, st1)) => if at(st1, Sym::PlusPlus) || at(st1, Sym::MinusMinus) {
            match adv(s, st1) {
                Err(x) => Err(x),
                Ok(st2) => Ok(
                    (
                        SExpr::PostIncDec(
                            Box::new(e),
                            if at(st1, Sym::PlusPlus) {
                                Op::Inc
                            } else {
                                Op::Dec
                            },
                        ),
                        st2,
                    ),
                ),
            }
        } else {
            Ok((e, st1))
        },
    }
}

/// The tree a prefix operator builds around its operand.
pub open spec fn prefix_form(k: Sym, e: SExpr) -> Option<SExpr> {
    if k == Sym::Bang {
        Some(SExpr::Unary(Op::Not, Box::new(e)))
    } else if k == Sym::Minus {
        Some(SExpr::Unary(Op::Neg, Box::new(e)))
    } else if k == Sym::Plus {
        Some(SExpr::Unary(Op::Plus, Box::new(e)))
    } else if k == Sym::PlusPlus {
        Some(SExpr::PreIncDec(Op::Inc, Box::new(e)))
    } else if k == Sym::MinusMinus {
        Some(SExpr::PreIncDec(Op::Dec, Box::new(e)))
    } else {
        None
    }
}

pub closed spec fn p_unary(s: Seq<char>, st: PState) -> Result<(SExpr, PState), SParseError>
    decreases pmeasure(s, st), 3int,
{
    match st.cur {
        SpecTK::Sym(k) => if prefix_form(k, SExpr::Num(Seq::empty())) is Some {
            match adv(s, st) {
                Err(e) => Err(e),
                Ok(st1) => if !ahead(s, st1, st) {
                    Err(SParseError::Stalled)
                } else {
                    match p_unary(s, st1) {
                        Err(e) => Err(e),
                        Ok((e, st2)) => Ok((prefix_form(k, e).unwrap(), st2)),
                    }
                },
            }
        } else {
            p_postfix(s, st)
        },
        _ => p_postfix(s, st),
    }
}

pub closed spec fn p_pow(s: Seq<char>, st: PState) -> Result<(SExpr, PState), SParseError>
    decreases pmeasure(s, st), 4int,
{
    match p_unary(s, st) {
        Err(e) => Err(e),
        Ok((l, st1)) => if at(st1, Sym::Caret) {
            match adv(s, st1) {
                Err(e) => Err(e),
                Ok(st2) => if !ahead(s, st2, st) {
                    Err(SParseError::Stalled)
                } else {
                    match p_pow(s, st2) {
                        Err(e) => Err(e),
                        Ok((r, st3)) => Ok((SExpr::Binary(Op::Pow, Box::new(l), Box::new(r)), st3)),
                    }
                },
            }
        } else {
            Ok((l, st1))
        },
    }
}

pub open spec fn mul_op(st: PState) -> Option<Op> {
    if at(st, Sym::Star) {
        Some(Op::Mul)
    } else if at(st, Sym::Slash) {
        Some(Op::Div)
    } else if at(st, Sym::Percent) {
        Some(Op::Mod)
    } else {
        None
    }
}

pub closed spec fn p_mul(s: Seq<char>, st: PState) -> Result<(SExpr, PState), SParseError>
    decreases pmeasure(s, st), 5int,
{
    match p_pow(s, st) {
        Err(e) => Err(e),
        Ok((l, st1)) => if !ahead(s, st1, st) {
            Err(SParseError::Stalled)
        } else {
            p_mul_rest(s, l, st1)
        },
    }
}

pub closed spec fn p_mul_rest(s: Seq<char>, lhs: SExpr, st: PState) -> Result<(SExpr, PState), SParseError>
    decreases pmeasure(s, st), 5int,
{
    match mul_op(st) {
        None => Ok((lhs, st)),
        Some(op) => match adv(s, st) {
            Err(e) => Err(e),
            Ok(st1) => if !ahead(s, st1, st) {
                Err(SParseError::Stalled)
            } else {
                match p_pow(s, st1) {
                    Err(e) => Err(e),
                    Ok((r, st2)) => if !ahead(s, st2, st) {
                        Err(SParseError::Stalled)
                    } else {
                        p_mul_rest(s, SExpr::Binary(op, Box::new(lhs), Box::new(r)), st2)
                    },
                }
            },
        },
    }
}

pub open spec fn add_op(st: PState) -> Option<Op> {
    if at(st, Sym::Plus) {
        Some(Op::Add)
    } else if at(st, Sym::Minus) {
        Some(Op::Sub)
    } else {
        None
    }
}

pub closed spec fn p_add(s: Seq<char>, st: PState) -> Result<(SExpr, PState), SParseError>
    decreases pmeasure(s, st), 6int,
{
    match p_mul(s, st) {
        Err(e) => Err(e),
        Ok((l, st1)) => if !ahead(s, st1, st) {
            Err(SParseError::Stalled)
        } else {
            p_add_rest(s, l, st1)
        },
    }
}

pub closed spec fn p_add_rest(s: Seq<char>, lhs: SExpr, st: PState) -> Result<(SExpr, PState), SParseError>
    decreases pmeasure(s, st), 6int,
{
    match add_op(st) {
        None => Ok((lhs, st)),
        Some(op) => match adv(s, st) {
            Err(e) => Err(e),
            Ok(st1) => if !ahead(s, st1, st) {
                Err(SParseError::Stalled)
            } else {
                match p_mul(s, st1) {
                    Err(e) => Err(e),
                    Ok((r, st2)) => if !ahead(s, st2, st) {
                        Err(SParseError::Stalled)
                    } else {
                        p_add_rest(s, SExpr::Binary(op, Box::new(lhs), Box::new(r)), st2)
                    },
                }
            },
        },
    }
}

pub closed spec fn p_concat(s: Seq<char>, st: PState) -> Result<(SExpr, PState), SParseError>
    decreases pmeasure(s, st), 7int,
{
    match p_add(s, st) {
        Err(e) => Err(e),
        Ok((first, st1)) => if !ahead(s, st1, st) {
            Err(SParseError::Stalled)
        } else {
            match p_concat_rest(s, seq![first], st1) {
                Err(e) => Err(e),
                Ok((parts, st2)) => Ok(
                    (
                        if parts.len() == 1 {
                            parts[0]
                        } else {
                            SExpr::Concat(parts)
                        },
                        st2,
                    ),
                ),
            }
        },
    }
}

pub closed spec fn p_concat_rest(s: Seq<char>, parts: Seq<SExpr>, st: PState) -> Result<
    (Seq<SExpr>, PState),
    SParseError,
>
    decreases pmeasure(s, st), 7int,
{
    if concat_stops(st) {
        Ok((parts, st))
    } else {
        match p_add(s, st) {
            Err(e) => Err(e),
            Ok((e, st1)) => if !ahead(s, st1, st) {
                Err(SParseError::Stalled)
            } else {
                p_concat_rest(s, parts.push(e), st1)
            },
        }
    }
}

pub open spec fn cmp_op(st: PState) -> Option<Op> {
    if at(st, Sym::Lt) {
        Some(Op::Lt)
    } else if at(st, Sym::LtEq) {
        Some(Op::Le)
    } else if at(st, Sym::Gt) {
        Some(Op::Gt)
    } else if at(st, Sym::GtEq) {
        Some(Op::Ge)
    } else if at(st, Sym::EqEq) {
        Some(Op::EqEq)
    } else if at(st, Sym::BangEq) {
        Some(Op::Ne)
    } else {
        None
    }
}

pub closed spec fn p_cmp(s: Seq<char>, st: PState) -> Result<(SExpr, PState), SParseError>
    decreases pmeasure(s, st), 8int,
{
    match p_concat(s, st) {
        Err(e) => Err(e),
        Ok((l, st1)) => if !ahead(s, st1, st) {
            Err(SParseError::Stalled)
        } else {
            p_cmp_rest(s, l, st1)
        },
    }
}

pub closed spec fn p_cmp_rest(s: Seq<char>, lhs: SExpr, st: PState) -> Result<(SExpr, PState), SParseError>
    decreases pmeasure(s, st), 8int,
{
    match cmp_op(st) {
        None => Ok((lhs, st)),
        Some(op) => match adv(s, st) {
            Err(e) => Err(e),
            Ok(st1) => if !ahead(s, st1, st) {
                Err(SParseError::Stalled)
            } else {
                match p_concat(s, st1) {
                    Err(e) => Err(e),
                    Ok((r, st2)) => if !ahead(s, st2, st) {
                        Err(SParseError::Stalled)
                    } else {
                        p_cmp_rest(s, SExpr::Binary(op, Box::new(lhs), Box::new(r)), st2)
                    },
                }
            },
        },
    }
}

pub closed spec fn p_in(s: Seq<char>, st: PState) -> Result<(SExpr, PState), SParseError>
    decreases pmeasure(s, st), 9int,
{
    match p_cmp(s, st) {
        Err(e) => Err(e),
        Ok((l, st1)) => if !ahead(s, st1, st) {
            Err(SParseError::Stalled)
        } else {
            p_in_rest(s, l, st1)
        },
    }
}

pub closed spec fn p_in_rest(s: Seq<char>, lhs: SExpr, st: PState) -> Result<(SExpr, PState), SParseError>
    decreases pmeasure(s, st), 9int,
{
    if at(st, Sym::In) {
        match adv(s, st) {
            Err(e) => Err(e),
            Ok(st1) => match st1.cur {
                SpecTK::Ident(name) => match adv(s, st1) {
                    Err(e) => Err(e),
                    Ok(st2) => if !ahead(s, st2, st) {
                        Err(SParseError::Stalled)
                    } else {
                        p_in_rest(s, SExpr::InArray(Box::new(lhs), name), st2)
                    },
                },
                _ => Err(SParseError::ExpectedArrayAfterIn(st1.line)),
            },
        }
    } else {
        Ok((lhs, st))
    }
}

pub closed spec fn p_match(s: Seq<char>, st: PState) -> Result<(SExpr, PState), SParseError>
    decreases pmeasure(s, st), 10int,
{
    match p_in(s, st) {
        Err(e) => Err(e),
        Ok((l, st1)) => if !ahead(s, st1, st) {
            Err(SParseError::Stalled)
        } else {
            p_match_rest(s, l, st1)
        },
    }
}

pub closed spec fn p_match_rest(s: Seq<char>, lhs: SExpr, st: PState) -> Result<(SExpr, PState), SParseError>
    decreases pmeasure(s, st), 10int,
{
    if at(st, Sym::Tilde) || at(st, Sym::BangTilde) {
        match adv(s, st) {
            Err(e) => Err(e),
            Ok(st1) => if !ahead(s, st1, st) {
                Err(SParseError::Stalled)
            } else {
                match p_in(s, st1) {
                    Err(e) => Err(e),
                    Ok((r, st2)) => if !ahead(s, st2, st) {
                        Err(SParseError::Stalled)
                    } else {
                        let m = SExpr::Match(Box::new(lhs), Box::new(r));
                        p_match_rest(
                            s,
                            if at(st, Sym::Tilde) {
                                m
                            } else {
                                SExpr::Unary(Op::Not, Box::new(m))
                            },
                            st2,
                        )
                    },
                }
            },
        }
    } else {
        Ok((lhs, st))
    }
}

pub closed spec fn p_and(s: Seq<char>, st: PState) -> Result<(SExpr, PState), SParseError>
    decreases pmeasure(s, st), 11int,
{
    match p_match(s, st) {
        Err(e) => Err(e),
        Ok((l, st1)) => if !ahead(s, st1, st) {
            Err(SParseError::Stalled)
        } else {
            p_and_rest(s, l, st1)
        },
    }
}

pub closed spec fn p_and_rest(s: Seq<char>, lhs: SExpr, st: PState) -> Result<(SExpr, PState), SParseError>
    decreases pmeasure(s, st), 11int,
{
    if at(st, Sym::And) {
        match adv(s, st) {
            Err(e) => Err(e),
            Ok(st1) => if !ahead(s, st1, st) {
                Err(SParseError::Stalled)
            } else {
                match p_match(s, st1) {
                    Err(e) => Err(e),
                    Ok((r, st2)) => if !ahead(s, st2, st) {
                        Err(SParseError::Stalled)
                    } else {
                        p_and_rest(s, SExpr::Binary(Op::And, Box::new(lhs), Box::new(r)), st2)
                    },
                }
            },
        }
    } else {
        Ok((lhs, st))
    }
}

pub closed spec fn p_or(s: Seq<char>, st: PState) -> Result<(SExpr, PState), SParseError>
    decreases pmeasure(s, st), 12int,
{
    match p_and(s, st) {
        Err(e) => Err(e),
        Ok((l, st1)) => if !ahead(s, st1, st) {
            Err(SParseError::Stalled)
        } else {
            p_or_rest(s, l, st1)
        },
    }
}

pub closed spec fn p_or_rest(s: Seq<char>, lhs: SExpr, st: PState) -> Result<(SExpr, PState), SParseError>
    decreases pmeasure(s, st), 12int,
{
    if at(st, Sym::Or) {
        match adv(s, st) {
            Err(e) => Err(e),
            Ok(st1) => if !ahead(s, st1, st) {
                Err(SParseError::Stalled)
            } else {
                match p_and(s, st1) {
                    Err(e) => Err(e),
                    Ok((r, st2)) => if !ahead(s, st2, st) {
                        Err(SParseError::Stalled)
                    } else {
                        p_or_rest(s, SExpr::Binary(Op::Or, Box::new(lhs), Box::new(r)), st2)
                    },
                }
            },
        }
    } else {
        Ok((lhs, st))
    }
}

/// The assignment operator at `st`: plain (`None`) or compound with an operation.
pub open spec fn assign_op(st: PState) -> Option<Option<Op>> {
    if at(st, Sym::Eq) {
        Some(None)
    } else if at(st, Sym::PlusEq) {
        Some(Some(Op::Add))
    } else if at(st, Sym::MinusEq) {
        Some(Some(Op::Sub))
    } else if at(st, Sym::StarEq) {
        Some(Some(Op::Mul))
    } else if at(st, Sym::SlashEq) {
        Some(Some(Op::Div))
    } else if at(st, Sym::PercentEq) {
        Some(Some(Op::Mod))
    } else if at(st, Sym::CaretEq) {
        Some(Some(Op::Pow))
    } else {
        None
    }
}

pub open spec fn assignment(op: Option<Op>, lhs: SExpr, rhs: SExpr) -> SExpr {
    match op {
        None => SExpr::Assign(Box::new(lhs), Box::new(rhs)),
        Some(o) => SExpr::CompoundAssign(o, Box::new(lhs), Box::new(rhs)),
    }
}

pub closed spec fn p_ternary(s: Seq<char>, st: PState) -> Result<(SExpr, PState), SParseError>
    decreases pmeasure(s, st), 13int,
{
    match p_or(s, st) {
        Err(e) => Err(e),
        Ok((l, st1)) => if at(st1, Sym::Question) {
            match adv(s, st1) {
                Err(e) => Err(e),
                Ok(st2) => if !ahead(s, st2, st) {
                    Err(SParseError::Stalled)
                } else {
                    match p_ternary(s, st2) {
                        Err(e) => Err(e),
                        Ok((t, st3)) => match pexpect(s, st3, Sym::Colon) {
                            Err(e) => Err(e),
                            Ok(st4) => if !ahead(s, st4, st) {
                                Err(SParseError::Stalled)
                            } else {
                                match p_ternary(s, st4) {
                                    Err(e) => Err(e),
                                    Ok((f, st5)) => Ok(
                                        (
                                            SExpr::Ternary(Box::new(l), Box::new(t), Box::new(f)),
                                            st5,
                                        ),
                                    ),
                                }
                            },
                        },
                    }
                },
            }
        } else {
            match assign_op(st1) {
                None => Ok((l, st1)),
                Some(op) => match adv(s, st1) {
                    Err(e) => Err(e),
                    Ok(st2) => if !ahead(s, st2, st) {
                        Err(SParseError::Stalled)
                    } else {
                        match p_ternary(s, st2) {
                            Err(e) => Err(e),
                            Ok((r, st3)) => Ok((assignment(op, l, r), st3)),
                        }
                    },
                },
            }
        },
    }
}

pub closed spec fn p_expr(s: Seq<char>, st: PState) -> Result<(SExpr, PState), SParseError>
    decreases pmeasure(s, st), 14int,
{
    p_ternary(s, st)
}

// ---------------------------------------------------------------------------
// The statement and program grammar
// ---------------------------------------------------------------------------

pub closed spec fn p_skip_nls(s: Seq<char>, st: PState) -> Result<PState, SParseError>
    decreases pmeasure(s, st),
{
    if at(st, Sym::Newline) {
        match adv(s, st) {
            Err(e) => Err(e),
            Ok(st1) => if !ahead(s, st1, st) {
                Err(SParseError::Stalled)
            } else {
                p_skip_nls(s, st1)
            },
        }
    } else {
        Ok(st)
    }
}

pub closed spec fn p_skip_terms(s: Seq<char>, st: PState) -> Result<PState, SParseError>
    decreases pmeasure(s, st),
{
    if at(st, Sym::Newline) || at(st, Sym::Semi) {
        match adv(s, st) {
            Err(e) => Err(e),
            Ok(st1) => if !ahead(s, st1, st) {
                Err(SParseError::Stalled)
            } else {
                p_skip_terms(s, st1)
            },
        }
    } else {
        Ok(st)
    }
}

/// An expression whose first token, the variable `var`, has been read.
pub closed spec fn p_finish_var(s: Seq<char>, var: Seq<char>, st: PState) -> Result<
    (SExpr, PState),
    SParseError,
> {
    let lhs = SExpr::Var(var);
    let op = if at(st, Sym::PlusEq) {
        Some(Op::Add)
    } else if at(st, Sym::MinusEq) {
        Some(Op::Sub)
    } else if at(st, Sym::StarEq) {
        Some(Op::Mul)
    } else if at(st, Sym::SlashEq) {
        Some(Op::Div)
    } else if at(st, Sym::PercentEq) {
        Some(Op::Mod)
    } else {
        None
    };
    if at(st, Sym::Eq) || op is Some {
        match adv(s, st) {
            Err(e) => Err(e),
            Ok(st1) => match p_expr(s, st1) {
                Err(e) => Err(e),
                Ok((rhs, st2)) => Ok((assignment(op, lhs, rhs), st2)),
            },
        }
    } else if at(st, Sym::PlusPlus) || at(st, Sym::MinusMinus) {
        match adv(s, st) {
            Err(e) => Err(e),
            Ok(st1) => Ok(
                (
                    SExpr::PostIncDec(
                        Box::new(lhs),
                        if at(st, Sym::PlusPlus) {
                            Op::Inc
                        } else {
                            Op::Dec
                        },
                    ),
                    st1,
                ),
            ),
        }
    } else {
        Ok((lhs, st))
    }
}

/// An output redirection, if one comes at `st`.
pub closed spec fn p_redirect(s: Seq<char>, st: PState) -> Result<
    (Option<SRedirect>, PState),
    SParseError,
> {
    if at(st, Sym::Gt) || at(st, Sym::Append) || at(st, Sym::Pipe) {
        match adv(s, st) {
            Err(e) => Err(e),
            Ok(st1) => match p_primary(s, st1) {
                Err(e) => Err(e),
                Ok((e, st2)) => Ok(
                    (
                        Some(
                            if at(st, Sym::Gt) {
                                SRedirect::File(e)
                            } else if at(st, Sym::Append) {
                                SRedirect::Append(e)
                            } else {
                                SRedirect::Pipe(e)
                            },
                        ),
                        st2,
                    ),
                ),
            },
        }
    } else {
        Ok((None, st))
    }
}

/// An expression unless the statement ends at `st`.
pub closed spec fn p_opt_expr(s: Seq<char>, st: PState) -> Result<
    (Option<SExpr>, PState),
    SParseError,
> {
    if stmt_end(st) {
        Ok((None, st))
    } else {
        match p_expr(s, st) {
            Err(e) => Err(e),
            Ok((e, st1)) => Ok((Some(e), st1)),
        }
    }
}

/// A `delete` statement, the keyword being at `st`.
pub closed spec fn p_delete(s: Seq<char>, st: PState) -> Result<(SStmt, PState), SParseError> {
    match adv(s, st) {
        Err(e) => Err(e),
        Ok(st1) => match st1.cur {
            SpecTK::Ident(name) => match adv(s, st1) {
                Err(e) => Err(e),
                Ok(st2) => if at(st2, Sym::LBrack) {
                    match adv(s, st2) {
                        Err(e) => Err(e),
                        Ok(st3) => match p_list(s, st3, Sym::RBrack) {
                            Err(e) => Err(e),
                            Ok((keys, st4)) => Ok((SStmt::Delete(name, Some(keys)), st4)),
                        },
                    }
                } else {
                    Ok((SStmt::Delete(name, None), st2))
                },
            },
            _ => Err(SParseError::ExpectedArrayAfterDelete(st.line)),
        },
    }
}

/// The arguments of `print` or `printf`, from `st`.
pub closed spec fn p_print_args(s: Seq<char>, st: PState) -> Result<
    (Seq<SExpr>, PState),
    SParseError,
> {
    if !stmt_end(st) && !at(st, Sym::RParen) {
        match p_expr(s, st) {
            Err(e) => Err(e),
            Ok((a0, st1)) => p_more(s, seq![a0], st1),
        }
    } else {
        Ok((Seq::empty(), st))
    }
}

/// A `print` or `printf` statement, the keyword being at `st`.
pub closed spec fn p_print(s: Seq<char>, st: PState) -> Result<(SStmt, PState), SParseError> {
    match adv(s, st) {
        Err(e) => Err(e),
        Ok(st1) => {
            let paren = at(st1, Sym::LParen);
            match if paren {
                adv(s, st1)
            } else {
                Ok(st1)
            } {
                Err(e) => Err(e),
                Ok(st2) => match p_print_args(s, st2) {
                    Err(e) => Err(e),
                    Ok((args, st3)) => match if paren && at(st3, Sym::RParen) {
                        adv(s, st3)
                    } else {
                        Ok(st3)
                    } {
                        Err(e) => Err(e),
                        Ok(st4) => match p_redirect(s, st4) {
                            Err(e) => Err(e),
                            Ok((red, st5)) => Ok(
                                (
                                    if at(st, Sym::Printf) {
                                        SStmt::Printf(args, red)
                                    } else {
                                        SStmt::Print(args, red)
                                    },
                                    st5,
                                ),
                            ),
                        },
                    },
                },
            }
        },
    }
}

/// A block in braces, from `st`.
pub closed spec fn p_block(s: Seq<char>, st: PState) -> Result<(SStmt, PState), SParseError>
    decreases pmeasure(s, st), 0int,
{
    match pexpect(s, st, Sym::LBrace) {
        Err(e) => Err(e),
        Ok(st1) => match p_skip_terms(s, st1) {
            Err(e) => Err(e),
            Ok(st2) => if !ahead(s, st2, st) {
                Err(SParseError::Stalled)
            } else {
                p_block_rest(s, Seq::empty(), st2)
            },
        },
    }
}

/// The statements of a block after `acc`, up to and including the closing brace.
pub closed spec fn p_block_rest(s: Seq<char>, acc: Seq<SStmt>, st: PState) -> Result<
    (SStmt, PState),
    SParseError,
>
    decreases pmeasure(s, st), 2int,
{
    if at(st, Sym::RBrace) {
        match adv(s, st) {
            Err(e) => Err(e),
            Ok(st1) => Ok((SStmt::Block(acc), st1)),
        }
    } else if at(st, Sym::Eof) {
        Err(SParseError::UnclosedBlock)
    } else {
        match p_stmt(s, st) {
            Err(e) => Err(e),
            Ok((x, st1)) => match p_skip_terms(s, st1) {
                Err(e) => Err(e),
                Ok(st2) => if !ahead(s, st2, st) {
                    Err(SParseError::Stalled)
                } else {
                    p_block_rest(s, acc.push(x), st2)
                },
            },
        }
    }
}

/// An `if` statement, the keyword being at `st`.
pub closed spec fn p_if(s: Seq<char>, st: PState) -> Result<(SStmt, PState), SParseError>
    decreases pmeasure(s, st), 0int,
{
    match adv(s, st) {
        Err(e) => Err(e),
        Ok(st1) => match pexpect(s, st1, Sym::LParen) {
            Err(e) => Err(e),
            Ok(st2) => match p_expr(s, st2) {
                Err(e) => Err(e),
                Ok((cond, st3)) => match pexpect(s, st3, Sym::RParen) {
                    Err(e) => Err(e),
                    Ok(st4) => match p_skip_nls(s, st4) {
                        Err(e) => Err(e),
                        Ok(st5) => if !ahead(s, st5, st) {
                            Err(SParseError::Stalled)
                        } else {
                            match p_stmt(s, st5) {
                                Err(e) => Err(e),
                                Ok((then, st6)) => match p_skip_terms(s, st6) {
                                    Err(e) => Err(e),
                                    Ok(st7) => if at(st7, Sym::Else) {
                                        match adv(s, st7) {
                                            Err(e) => Err(e),
                                            Ok(st8) => match p_skip_nls(s, st8) {
                                                Err(e) => Err(e),
                                                Ok(st9) => if !ahead(s, st9, st) {
                                                    Err(SParseError::Stalled)
                                                } else {
                                                    match p_stmt(s, st9) {
                                                        Err(e) => Err(e),
                                                        Ok((els, st10)) => Ok(
                                                            (
                                                                SStmt::If(
                                                                    cond,
                                                                    Box::new(then),
                                                                    Some(Box::new(els)),
                                                                ),
                                                                st10,
                                                            ),
                                                        ),
                                                    }
                                                },
                                            },
                                        }
                                    } else {
                                        Ok((SStmt::If(cond, Box::new(then), None), st7))
                                    },
                                },
                            }
                        },
                    },
                },
            },
        },
    }
}

/// A `while` statement, the keyword being at `st`.
pub closed spec fn p_while(s: Seq<char>, st: PState) -> Result<(SStmt, PState), SParseError>
    decreases pmeasure(s, st), 0int,
{
    match adv(s, st) {
        Err(e) => Err(e),
        Ok(st1) => match pexpect(s, st1, Sym::LParen) {
            Err(e) => Err(e),
            Ok(st2) => match p_expr(s, st2) {
                Err(e) => Err(e),
                Ok((cond, st3)) => match pexpect(s, st3, Sym::RParen) {
                    Err(e) => Err(e),
                    Ok(st4) => match p_skip_nls(s, st4) {
                        Err(e) => Err(e),
                        Ok(st5) => if !ahead(s, st5, st) {
                            Err(SParseError::Stalled)
                        } else {
                            match p_stmt(s, st5) {
                                Err(e) => Err(e),
                                Ok((body, st6)) => Ok((SStmt::While(cond, Box::new(body)), st6)),
                            }
                        },
                    },
                },
            },
        },
    }
}

/// A `do` statement, the keyword being at `st`; the token after the body is taken
/// to be `while` without being checked.
pub closed spec fn p_do(s: Seq<char>, st: PState) -> Result<(SStmt, PState), SParseError>
    decreases pmeasure(s, st), 0int,
{
    match adv(s, st) {
        Err(e) => Err(e),
        Ok(st1) => match p_skip_nls(s, st1) {
            Err(e) => Err(e),
            Ok(st2) => if !ahead(s, st2, st) {
                Err(SParseError::Stalled)
            } else {
                match p_stmt(s, st2) {
                    Err(e) => Err(e),
                    Ok((body, st3)) => match p_skip_terms(s, st3) {
                        Err(e) => Err(e),
                        Ok(st4) => match adv(s, st4) {
                            Err(e) => Err(e),
                            Ok(st5) => match pexpect(s, st5, Sym::LParen) {
                                Err(e) => Err(e),
                                Ok(st6) => match p_expr(s, st6) {
                                    Err(e) => Err(e),
                                    Ok((cond, st7)) => match pexpect(s, st7, Sym::RParen) {
                                        Err(e) => Err(e),
                                        Ok(st8) => Ok((SStmt::DoWhile(Box::new(body), cond), st8)),
                                    },
                                },
                            },
                        },
                    },
                }
            },
        },
    }
}

/// The rest of a `for` header after its initialisation `init`, then the body:
/// `; cond ; post )`.
pub closed spec fn p_for_tail(s: Seq<char>, init: Option<Box<SStmt>>, st: PState) -> Result<
    (SStmt, PState),
    SParseError,
>
    decreases pmeasure(s, st), 0int,
{
    match pexpect(s, st, Sym::Semi) {
        Err(e) => Err(e),
        Ok(st1) => match if !at(st1, Sym::Semi) {
            p_opt_expr_some(s, st1)
        } else {
            Ok((None, st1))
        } {
            Err(e) => Err(e),
            Ok((cond, st2)) => match pexpect(s, st2, Sym::Semi) {
                Err(e) => Err(e),
                Ok(st3) => match if !at(st3, Sym::RParen) {
                    p_opt_expr_some(s, st3)
                } else {
                    Ok((None, st3))
                } {
                    Err(e) => Err(e),
                    Ok((post, st4)) => match pexpect(s, st4, Sym::RParen) {
                        Err(e) => Err(e),
                        Ok(st5) => match p_skip_nls(s, st5) {
                            Err(e) => Err(e),
                            Ok(st6) => if !ahead(s, st6, st) {
                                Err(SParseError::Stalled)
                            } else {
                                match p_stmt(s, st6) {
                                    Err(e) => Err(e),
                                    Ok((body, st7)) => Ok(
                                        (
                                            SStmt::For(
                                                init,
                                                cond,
                                                match post {
                                                    Some(p) => Some(Box::new(SStmt::Expr(p))),
                                                    None => None,
                                                },
                                                Box::new(body),
                                            ),
                                            st7,
                                        ),
                                    ),
                                }
                            },
                        },
                    },
                },
            },
        },
    }
}

/// An expression, as an optional one.
pub open spec fn p_opt_expr_some(s: Seq<char>, st: PState) -> Result<
    (Option<SExpr>, PState),
    SParseError,
> {
    match p_expr(s, st) {
        Err(e) => Err(e),
        Ok((e, st1)) => Ok((Some(e), st1)),
    }
}

/// A `for` statement, the keyword being at `st`: `for (var in array)` or the
/// three-part form.
pub closed spec fn p_for(s: Seq<char>, st: PState) -> Result<(SStmt, PState), SParseError>
    decreases pmeasure(s, st), 0int,
{
    match adv(s, st) {
        Err(e) => Err(e),
        Ok(st1) => match pexpect(s, st1, Sym::LParen) {
            Err(e) => Err(e),
            Ok(st2) => match st2.cur {
                SpecTK::Ident(var) => match adv(s, st2) {
                    Err(e) => Err(e),
                    Ok(st3) => {
                        let after_in = if at(st3, Sym::In) {
                            match adv(s, st3) {
                                Err(e) => Err(e),
                                Ok(st4) => match st4.cur {
                                    SpecTK::Ident(arr) => Ok(Some((arr, st4))),
                                    _ => Ok(None),
                                },
                            }
                        } else {
                            Ok(None)
                        };
                        match after_in {
                            Err(e) => Err(e),
                            Ok(Some((arr, st4))) => match adv(s, st4) {
                                Err(e) => Err(e),
                                Ok(st5) => match pexpect(s, st5, Sym::RParen) {
                                    Err(e) => Err(e),
                                    Ok(st6) => match p_skip_nls(s, st6) {
                                        Err(e) => Err(e),
                                        Ok(st7) => if !ahead(s, st7, st) {
                                            Err(SParseError::Stalled)
                                        } else {
                                            match p_stmt(s, st7) {
                                                Err(e) => Err(e),
                                                Ok((body, st8)) => Ok(
                                                    (SStmt::ForIn(var, arr, Box::new(body)), st8),
                                                ),
                                            }
                                        },
                                    },
                                },
                            },
                            Ok(None) => {
                                let stv = if at(st3, Sym::In) {
                                    match adv(s, st3) {
                                        Ok(st4) => st4,
                                        Err(_) => st3,
                                    }
                                } else {
                                    st3
                                };
                                match p_finish_var(s, var, stv) {
                                    Err(e) => Err(e),
                                    Ok((init, sta)) => if !ahead(s, sta, st) {
                                        Err(SParseError::Stalled)
                                    } else {
                                        p_for_tail(s, Some(Box::new(SStmt::Expr(init))), sta)
                                    },
                                }
                            },
                        }
                    },
                },
                _ => match if !at(st2, Sym::Semi) {
                    match p_expr(s, st2) {
                        Err(e) => Err(e),
                        Ok((e, st3)) => Ok((Some(Box::new(SStmt::Expr(e))), st3)),
                    }
                } else {
                    Ok((None, st2))
                } {
                    Err(e) => Err(e),
                    Ok((init, st3)) => if !ahead(s, st3, st) {
                        Err(SParseError::Stalled)
                    } else {
                        p_for_tail(s, init, st3)
                    },
                },
            },
        },
    }
}

/// One statement, from `st`.
pub closed spec fn p_stmt(s: Seq<char>, st: PState) -> Result<(SStmt, PState), SParseError>
    decreases pmeasure(s, st), 1int,
{
    if at(st, Sym::If) {
        p_if(s, st)
    } else if at(st, Sym::While) {
        p_while(s, st)
    } else if at(st, Sym::Do) {
        p_do(s, st)
    } else if at(st, Sym::For) {
        p_for(s, st)
    } else if at(st, Sym::Break) || at(st, Sym::Continue) || at(st, Sym::Next) {
        match adv(s, st) {
            Err(e) => Err(e),
            Ok(st1) => Ok(
                (
                    if at(st, Sym::Break) {
                        SStmt::Break
                    } else if at(st, Sym::Continue) {
                        SStmt::Continue
                    } else {
                        SStmt::Next
                    },
                    st1,
                ),
            ),
        }
    } else if at(st, Sym::Exit) || at(st, Sym::Return) {
        match adv(s, st) {
            Err(e) => Err(e),
            Ok(st1) => match p_opt_expr(s, st1) {
                Err(e) => Err(e),
                Ok((e, st2)) => Ok(
                    (
                        if at(st, Sym::Exit) {
                            SStmt::Exit(e)
                        } else {
                            SStmt::Return(e)
                        },
                        st2,
                    ),
                ),
            },
        }
    } else if at(st, Sym::Delete) {
        p_delete(s, st)
    } else if at(st, Sym::Print) || at(st, Sym::Printf) {
        p_print(s, st)
    } else if at(st, Sym::LBrace) {
        p_block(s, st)
    } else {
        match p_expr(s, st) {
            Err(e) => Err(e),
            Ok((e, st1)) => Ok((SStmt::Expr(e), st1)),
        }
    }
}

/// A rule: a pattern and an action, either of which may be left out.
pub closed spec fn p_rule(s: Seq<char>, st: PState) -> Result<(SRule, PState), SParseError> {
    let pat = if at(st, Sym::BEGIN) || at(st, Sym::END) {
        match adv(s, st) {
            Err(e) => Err(e),
            Ok(st1) => Ok(
                (
                    if at(st, Sym::BEGIN) {
                        SPattern::Begin
                    } else {
                        SPattern::End
                    },
                    st1,
                ),
            ),
        }
    } else if at(st, Sym::LBrace) {
        Ok((SPattern::Always, st))
    } else {
        match p_expr(s, st) {
            Err(e) => Err(e),
            Ok((e1, st1)) => if at(st1, Sym::Comma) {
                match adv(s, st1) {
                    Err(e) => Err(e),
                    Ok(st2) => match p_skip_nls(s, st2) {
                        Err(e) => Err(e),
                        Ok(st3) => match p_expr(s, st3) {
                            Err(e) => Err(e),
                            Ok((e2, st4)) => Ok((SPattern::Range(e1, e2), st4)),
                        },
                    },
                }
            } else {
                Ok((SPattern::Expr(e1), st1))
            },
        }
    };
    match pat {
        Err(e) => Err(e),
        Ok((pattern, st1)) => match p_skip_nls(s, st1) {
            Err(e) => Err(e),
            Ok(st2) => if at(st2, Sym::LBrace) {
                match p_block(s, st2) {
                    Err(e) => Err(e),
                    Ok((action, st3)) => Ok((SRule { pattern, action }, st3)),
                }
            } else {
                Ok(
                    (
                        SRule { pattern, action: SStmt::Print(Seq::empty(), None) },
                        st2,
                    ),
                )
            },
        },
    }
}

/// The parameter names of a function definition after `acc`.
pub closed spec fn p_params(s: Seq<char>, acc: Seq<Seq<char>>, st: PState) -> Result<
    (Seq<Seq<char>>, PState),
    SParseError,
>
    decreases pmeasure(s, st),
{
    match st.cur {
        SpecTK::Ident(p) => match adv(s, st) {
            Err(e) => Err(e),
            Ok(st1) => match if at(st1, Sym::Comma) {
                adv(s, st1)
            } else {
                Ok(st1)
            } {
                Err(e) => Err(e),
                Ok(st2) => if !ahead(s, st2, st) {
                    Err(SParseError::Stalled)
                } else {
                    p_params(s, acc.push(p), st2)
                },
            },
        },
        _ => Ok((acc, st)),
    }
}

/// A function definition, the keyword being at `st`: its name, parameters and body.
pub closed spec fn p_function(s: Seq<char>, st: PState) -> Result<
    ((Seq<char>, SFunction), PState),
    SParseError,
> {
    match adv(s, st) {
        Err(e) => Err(e),
        Ok(st1) => match st1.cur {
            SpecTK::Ident(name) => match adv(s, st1) {
                Err(e) => Err(e),
                Ok(st2) => match pexpect(s, st2, Sym::LParen) {
                    Err(e) => Err(e),
                    Ok(st3) => match p_params(s, Seq::empty(), st3) {
                        Err(e) => Err(e),
                        Ok((params, st4)) => match pexpect(s, st4, Sym::RParen) {
                            Err(e) => Err(e),
                            Ok(st5) => match p_skip_nls(s, st5) {
                                Err(e) => Err(e),
                                Ok(st6) => match p_block(s, st6) {
                                    Err(e) => Err(e),
                                    Ok((body, st7)) => Ok(
                                        ((name, SFunction { params, body }), st7),
                                    ),
                                },
                            },
                        },
                    },
                },
            },
            _ => Err(SParseError::ExpectedFunctionName(st1.line)),
        },
    }
}

/// The rules and functions of a program from `st` on, after those read so far.
pub closed spec fn p_program_rest(
    s: Seq<char>,
    rules: Seq<SRule>,
    funcs: Seq<(Seq<char>, SFunction)>,
    st: PState,
) -> Result<(Seq<SRule>, Seq<(Seq<char>, SFunction)>), SParseError>
    decreases pmeasure(s, st),
{
    if at(st, Sym::Eof) {
        Ok((rules, funcs))
    } else if at(st, Sym::Function) {
        match p_function(s, st) {
            Err(e) => Err(e),
            Ok(((name, f), st1)) => match p_skip_terms(s, st1) {
                Err(e) => Err(e),
                Ok(st2) => if !ahead(s, st2, st) {
                    Err(SParseError::Stalled)
                } else {
                    p_program_rest(s, rules, sdefine(funcs, name, f), st2)
                },
            },
        }
    } else {
        match p_rule(s, st) {
            Err(e) => Err(e),
            Ok((rule, st1)) => match p_skip_terms(s, st1) {
                Err(e) => Err(e),
                Ok(st2) => if !ahead(s, st2, st) {
                    Err(SParseError::Stalled)
                } else {
                    p_program_rest(s, rules.push(rule), funcs, st2)
                },
            },
        }
    }
}

/// A whole program: its rules in order, and its functions by name.
pub closed spec fn p_program(s: Seq<char>, st: PState) -> Result<
    (Seq<SRule>, Seq<(Seq<char>, SFunction)>),
    SParseError,
> {
    match p_skip_terms(s, st) {
        Err(e) => Err(e),
        Ok(st1) => p_program_rest(s, Seq::empty(), Seq::empty(), st1),
    }
}

// ---------------------------------------------------------------------------
// Laws of the grammar
// ---------------------------------------------------------------------------

/// The operator of an additive expression is the one its token spells: after a
/// term `lhs`, a `+` or `-` and the next term `r`, the expression goes on from
/// `lhs + r` or `lhs - r`; where no further `+` or `-` follows, that is the whole
/// expression.
pub proof fn lemma_additive_operator(
    s: Seq<char>,
    lhs: SExpr,
    st: PState,
    st1: PState,
    r: SExpr,
    st2: PState,
)
    requires
        at(st, Sym::Plus) || at(st, Sym::Minus),
        adv(s, st) == Ok::<PState, SParseError>(st1),
        ahead(s, st1, st),
        p_mul(s, st1) == Ok::<(SExpr, PState), SParseError>((r, st2)),
        ahead(s, st2, st),
    ensures
        p_add_rest(s, lhs, st) == p_add_rest(
            s,
            SExpr::Binary(
                if at(st, Sym::Minus) {
                    Op::Sub
                } else {
                    Op::Add
                },
                Box::new(lhs),
                Box::new(r),
            ),
            st2,
        ),
        !at(st2, Sym::Plus) && !at(st2, Sym::Minus) ==> p_add_rest(s, lhs, st) == Ok::<
            (SExpr, PState),
            SParseError,
        >(
            (
                SExpr::Binary(
                    if at(st, Sym::Minus) {
                        Op::Sub
                    } else {
                        Op::Add
                    },
                    Box::new(lhs),
                    Box::new(r),
                ),
                st2,
            ),
        ),
{
    lemma_p_add_rest(s, lhs, st);
    let op = if at(st, Sym::Minus) {
        Op::Sub
    } else {
        Op::Add
    };
    lemma_p_add_rest(s, SExpr::Binary(op, Box::new(lhs), Box::new(r)), st2);
}

// ---------------------------------------------------------------------------
// One step of each grammar function
// ---------------------------------------------------------------------------

/// One step of `p_more`.
pub proof fn lemma_p_more(s: Seq<char>, acc: Seq<SExpr>, st: PState)
    ensures
        p_more(s, acc, st) == ({
            if at(st, Sym::Comma) {
                match adv(s, st) {
                    Err(e) => Err(e),
                    Ok(st1) => if !ahead(s, st1, st) {
                        Err(SParseError::Stalled)
                    } else {
                        match p_expr(s, st1) {
                            Err(e) => Err(e),
                            Ok((e, st2)) => if !ahead(s, st2, st) {
                                Err(SParseError::Stalled)
                            } else {
                                p_more(s, acc.push(e), st2)
                            },
                        }
                    },
                }
            } else {
                Ok((acc, st))
            }
        }),
{
}

/// One step of `p_list`.
pub proof fn lemma_p_list(s: Seq<char>, st: PState, closing: Sym)
    ensures
        p_list(s, st, closing) == ({
            match p_expr(s, st) {
                Err(e) => Err(e),
                Ok((e0, st1)) => if !ahead(s, st1, st) {
                    Err(SParseError::Stalled)
                } else {
                    match p_more(s, seq![e0], st1) {
                        Err(e) => Err(e),
                        Ok((es, st2)) => match pexpect(s, st2, closing) {
                            Err(e) => Err(e),
                            Ok(st3) => Ok((es, st3)),
                        },
                    }
                },
            }
        }),
{
}

/// One step of `p_regex_at`.
pub proof fn lemma_p_regex_at(s: Seq<char>, pos: int)
    ensures
        p_regex_at(s, pos) == ({
            match regex_lit(s, pos) {
                None => Err(
                    SParseError::Lex(LexErrKind::UnterminatedRegex, (1 + newlines_before(s, pos)) as int),
                ),
                Some((t, e)) => match lex(s, e) {
                    Lexed::Tok(t2, b, e2) => Ok(
                        (
                            SExpr::Regex(t),
                            PState {
                                cur: t2,
                                line: (1 + newlines_before(s, b)) as int,
                                pos: e2,
                                peeked: None,
                            },
                        ),
                    ),
                    Lexed::Fail(k, b) => Err(SParseError::Lex(k, (1 + newlines_before(s, b)) as int)),
                },
            }
        }),
{
}

/// One step of `p_primary`.
pub proof fn lemma_p_primary(s: Seq<char>, st: PState)
    ensures
        p_primary(s, st) == ({
            match st.cur {
                SpecTK::Num(t) => match adv(s, st) {
                    Err(e) => Err(e),
                    Ok(st1) => Ok((SExpr::Num(t), st1)),
                },
                SpecTK::Str(t) => match adv(s, st) {
                    Err(e) => Err(e),
                    Ok(st1) => Ok((SExpr::Str(t), st1)),
                },
                SpecTK::Ident(name) => match adv(s, st) {
                    Err(e) => Err(e),
                    Ok(st1) => p_name_tail(s, name, st1, st),
                },
                SpecTK::Regex(_) => Err(SParseError::UnexpectedToken(st.cur, st.line)),
                SpecTK::Sym(k) => p_sym_primary(s, k, st),
            }
        }),
{
}

/// One step of `p_name_tail`.
pub proof fn lemma_p_name_tail(s: Seq<char>, name: Seq<char>, st1: PState, st: PState)
    ensures
        p_name_tail(s, name, st1, st) == ({
            if at(st1, Sym::LBrack) {
                match adv(s, st1) {
                    Err(e) => Err(e),
                    Ok(st2) => if !ahead(s, st2, st) {
                        Err(SParseError::Stalled)
                    } else {
                        match p_list(s, st2, Sym::RBrack) {
                            Err(e) => Err(e),
                            Ok((keys, st3)) => Ok((SExpr::Array(name, keys), st3)),
                        }
                    },
                }
            } else if at(st1, Sym::LParen) {
                match adv(s, st1) {
                    Err(e) => Err(e),
                    Ok(st2) => if at(st2, Sym::RParen) {
                        match adv(s, st2) {
                            Err(e) => Err(e),
                            Ok(st3) => Ok((SExpr::Call(name, Seq::empty()), st3)),
                        }
                    } else if !ahead(s, st2, st) {
                        Err(SParseError::Stalled)
                    } else {
                        match p_list(s, st2, Sym::RParen) {
                            Err(e) => Err(e),
                            Ok((args, st3)) => Ok((SExpr::Call(name, args), st3)),
                        }
                    },
                }
            } else {
                Ok((SExpr::Var(name), st1))
            }
        }),
{
}

/// One step of `p_sym_primary`.
pub proof fn lemma_p_sym_primary(s: Seq<char>, k: Sym, st: PState)
    ensures
        p_sym_primary(s, k, st) == ({
            if k == Sym::Dollar || k == Sym::LParen || k == Sym::Bang {
                match adv(s, st) {
                    Err(e) => Err(e),
                    Ok(st1) => if !ahead(s, st1, st) {
                        Err(SParseError::Stalled)
                    } else if k == Sym::Dollar {
                        match p_unary(s, st1) {
                            Err(e) => Err(e),
                            Ok((e, st2)) => Ok((SExpr::Field(Box::new(e)), st2)),
                        }
                    } else if k == Sym::LParen {
                        match p_expr(s, st1) {
                            Err(e) => Err(e),
                            Ok((e, st2)) => match pexpect(s, st2, Sym::RParen) {
                                Err(x) => Err(x),
                                Ok(st3) => Ok((e, st3)),
                            },
                        }
                    } else {
                        match p_primary(s, st1) {
                            Err(e) => Err(e),
                            Ok((e, st2)) => Ok((SExpr::Unary(Op::Not, Box::new(e)), st2)),
                        }
                    },
                }
            } else if k == Sym::Slash {
                match st.peeked {
                    Some(_) => match adv(s, st) {
                        Err(e) => Err(e),
                        Ok(st1) => p_regex_at(s, st1.pos),
                    },
                    None => p_regex_at(s, st.pos),
                }
            } else if k == Sym::Getline {
                match adv(s, st) {
                    Err(e) => Err(e),
                    Ok(st1) => match st1.cur {
                        SpecTK::Ident(v) => match adv(s, st1) {
                            Err(e) => Err(e),
                            Ok(st2) => Ok((SExpr::Getline(Some(Box::new(SExpr::Var(v)))), st2)),
                        },
                        _ => Ok((SExpr::Getline(None), st1)),
                    },
                }
            } else {
                Err(SParseError::UnexpectedToken(st.cur, st.line))
            }
        }),
{
}

/// One step of `p_postfix`.
pub proof fn lemma_p_postfix(s: Seq<char>, st: PState)
    ensures
        p_postfix(s, st) == ({
            match p_primary(s, st) {
                Err(e) => Err(e),
                Ok((e, st1)) => if at(st1, Sym::PlusPlus) || at(st1, Sym::MinusMinus) {
                    match adv(s, st1) {
                        Err(x) => Err(x),
                        Ok(st2) => Ok(
                            (
                                SExpr::PostIncDec(
                                    Box::new(e),
                                    if at(st1, Sym::PlusPlus) {
                                        Op::Inc
                                    } else {
                                        Op::Dec
                                    },
                                ),
                                st2,
                            ),
                        ),
                    }
                } else {
                    Ok((e, st1))
                },
            }
        }),
{
}

/// One step of `p_unary`.
pub proof fn lemma_p_unary(s: Seq<char>, st: PState)
    ensures
        p_unary(s, st) == ({
            match st.cur {
                SpecTK::Sym(k) => if prefix_form(k, SExpr::Num(Seq::empty())) is Some {
                    match adv(s, st) {
                        Err(e) => Err(e),
                        Ok(st1) => if !ahead(s, st1, st) {
                            Err(SParseError::Stalled)
                        } else {
                            match p_unary(s, st1) {
                                Err(e) => Err(e),
                                Ok((e, st2)) => Ok((prefix_form(k, e).unwrap(), st2)),
                            }
                        },
                    }
                } else {
                    p_postfix(s, st)
                },
                _ => p_postfix(s, st),
            }
        }),
{
}

/// One step of `p_pow`.
pub proof fn lemma_p_pow(s: Seq<char>, st: PState)
    ensures
        p_pow(s, st) == ({
            match p_unary(s, st) {
                Err(e) => Err(e),
                Ok((l, st1)) => if at(st1, Sym::Caret) {
                    match adv(s, st1) {
                        Err(e) => Err(e),
                        Ok(st2) => if !ahead(s, st2, st) {
                            Err(SParseError::Stalled)
                        } else {
                            match p_pow(s, st2) {
                                Err(e) => Err(e),
                                Ok((r, st3)) => Ok((SExpr::Binary(Op::Pow, Box::new(l), Box::new(r)), st3)),
                            }
                        },
                    }
                } else {
                    Ok((l, st1))
                },
            }
        }),
{
}

/// One step of `p_mul`.
pub proof fn lemma_p_mul(s: Seq<char>, st: PState)
    ensures
        p_mul(s, st) == ({
            match p_pow(s, st) {
                Err(e) => Err(e),
                Ok((l, st1)) => if !ahead(s, st1, st) {
                    Err(SParseError::Stalled)
                } else {
                    p_mul_rest(s, l, st1)
                },
            }
        }),
{
}

/// One step of `p_mul_rest`.
pub proof fn lemma_p_mul_rest(s: Seq<char>, lhs: SExpr, st: PState)
    ensures
        p_mul_rest(s, lhs, st) == ({
            match mul_op(st) {
                None => Ok((lhs, st)),
                Some(op) => match adv(s, st) {
                    Err(e) => Err(e),
                    Ok(st1) => if !ahead(s, st1, st) {
                        Err(SParseError::Stalled)
                    } else {
                        match p_pow(s, st1) {
                            Err(e) => Err(e),
                            Ok((r, st2)) => if !ahead(s, st2, st) {
                                Err(SParseError::Stalled)
                            } else {
                                p_mul_rest(s, SExpr::Binary(op, Box::new(lhs), Box::new(r)), st2)
                            },
                        }
                    },
                },
            }
        }),
{
}

/// One step of `p_add`.
pub proof fn lemma_p_add(s: Seq<char>, st: PState)
    ensures
        p_add(s, st) == ({
            match p_mul(s, st) {
                Err(e) => Err(e),
                Ok((l, st1)) => if !ahead(s, st1, st) {
                    Err(SParseError::Stalled)
                } else {
                    p_add_rest(s, l, st1)
                },
            }
        }),
{
}

/// One step of `p_add_rest`.
pub proof fn lemma_p_add_rest(s: Seq<char>, lhs: SExpr, st: PState)
    ensures
        p_add_rest(s, lhs, st) == ({
            match add_op(st) {
                None => Ok((lhs, st)),
                Some(op) => match adv(s, st) {
                    Err(e) => Err(e),
                    Ok(st1) => if !ahead(s, st1, st) {
                        Err(SParseError::Stalled)
                    } else {
                        match p_mul(s, st1) {
                            Err(e) => Err(e),
                            Ok((r, st2)) => if !ahead(s, st2, st) {
                                Err(SParseError::Stalled)
                            } else {
                                p_add_rest(s, SExpr::Binary(op, Box::new(lhs), Box::new(r)), st2)
                            },
                        }
                    },
                },
            }
        }),
{
}

/// One step of `p_concat`.
pub proof fn lemma_p_concat(s: Seq<char>, st: PState)
    ensures
        p_concat(s, st) == ({
            match p_add(s, st) {
                Err(e) => Err(e),
                Ok((first, st1)) => if !ahead(s, st1, st) {
                    Err(SParseError::Stalled)
                } else {
                    match p_concat_rest(s, seq![first], st1) {
                        Err(e) => Err(e),
                        Ok((parts, st2)) => Ok(
                            (
                                if parts.len() == 1 {
                                    parts[0]
                                } else {
                                    SExpr::Concat(parts)
                                },
                                st2,
                            ),
                        ),
                    }
                },
            }
        }),
{
}

/// One step of `p_concat_rest`.
pub proof fn lemma_p_concat_rest(s: Seq<char>, parts: Seq<SExpr>, st: PState)
    ensures
        p_concat_rest(s, parts, st) == ({
            if concat_stops(st) {
                Ok((parts, st))
            } else {
                match p_add(s, st) {
                    Err(e) => Err(e),
                    Ok((e, st1)) => if !ahead(s, st1, st) {
                        Err(SParseError::Stalled)
                    } else {
                        p_concat_rest(s, parts.push(e), st1)
                    },
                }
            }
        }),
{
}

/// One step of `p_cmp`.
pub proof fn lemma_p_cmp(s: Seq<char>, st: PState)
    ensures
        p_cmp(s, st) == ({
            match p_concat(s, st) {
                Err(e) => Err(e),
                Ok((l, st1)) => if !ahead(s, st1, st) {
                    Err(SParseError::Stalled)
                } else {
                    p_cmp_rest(s, l, st1)
                },
            }
        }),
{
}

/// One step of `p_cmp_rest`.
pub proof fn lemma_p_cmp_rest(s: Seq<char>, lhs: SExpr, st: PState)
    ensures
        p_cmp_rest(s, lhs, st) == ({
            match cmp_op(st) {
                None => Ok((lhs, st)),
                Some(op) => match adv(s, st) {
                    Err(e) => Err(e),
                    Ok(st1) => if !ahead(s, st1, st) {
                        Err(SParseError::Stalled)
                    } else {
                        match p_concat(s, st1) {
                            Err(e) => Err(e),
                            Ok((r, st2)) => if !ahead(s, st2, st) {
                                Err(SParseError::Stalled)
                            } else {
                                p_cmp_rest(s, SExpr::Binary(op, Box::new(lhs), Box::new(r)), st2)
                            },
                        }
                    },
                },
            }
        }),
{
}

/// One step of `p_in`.
pub proof fn lemma_p_in(s: Seq<char>, st: PState)
    ensures
        p_in(s, st) == ({
            match p_cmp(s, st) {
                Err(e) => Err(e),
                Ok((l, st1)) => if !ahead(s, st1, st) {
                    Err(SParseError::Stalled)
                } else {
                    p_in_rest(s, l, st1)
                },
            }
        }),
{
}

/// One step of `p_in_rest`.
pub proof fn lemma_p_in_rest(s: Seq<char>, lhs: SExpr, st: PState)
    ensures
        p_in_rest(s, lhs, st) == ({
            if at(st, Sym::In) {
                match adv(s, st) {
                    Err(e) => Err(e),
                    Ok(st1) => match st1.cur {
                        SpecTK::Ident(name) => match adv(s, st1) {
                            Err(e) => Err(e),
                            Ok(st2) => if !ahead(s, st2, st) {
                                Err(SParseError::Stalled)
                            } else {
                                p_in_rest(s, SExpr::InArray(Box::new(lhs), name), st2)
                            },
                        },
                        _ => Err(SParseError::ExpectedArrayAfterIn(st1.line)),
                    },
                }
            } else {
                Ok((lhs, st))
            }
        }),
{
}

/// One step of `p_match`.
pub proof fn lemma_p_match(s: Seq<char>, st: PState)
    ensures
        p_match(s, st) == ({
            match p_in(s, st) {
                Err(e) => Err(e),
                Ok((l, st1)) => if !ahead(s, st1, st) {
                    Err(SParseError::Stalled)
                } else {
                    p_match_rest(s, l, st1)
                },
            }
        }),
{
}

/// One step of `p_match_rest`.
pub proof fn lemma_p_match_rest(s: Seq<char>, lhs: SExpr, st: PState)
    ensures
        p_match_rest(s, lhs, st) == ({
            if at(st, Sym::Tilde) || at(st, Sym::BangTilde) {
                match adv(s, st) {
                    Err(e) => Err(e),
                    Ok(st1) => if !ahead(s, st1, st) {
                        Err(SParseError::Stalled)
                    } else {
                        match p_in(s, st1) {
                            Err(e) => Err(e),
                            Ok((r, st2)) => if !ahead(s, st2, st) {
                                Err(SParseError::Stalled)
                            } else {
                                let m = SExpr::Match(Box::new(lhs), Box::new(r));
                                p_match_rest(
                                    s,
                                    if at(st, Sym::Tilde) {
                                        m
                                    } else {
                                        SExpr::Unary(Op::Not, Box::new(m))
                                    },
                                    st2,
                                )
                            },
                        }
                    },
                }
            } else {
                Ok((lhs, st))
            }
        }),
{
}

/// One step of `p_and`.
pub proof fn lemma_p_and(s: Seq<char>, st: PState)
    ensures
        p_and(s, st) == ({
            match p_match(s, st) {
                Err(e) => Err(e),
                Ok((l, st1)) => if !ahead(s, st1, st) {
                    Err(SParseError::Stalled)
                } else {
                    p_and_rest(s, l, st1)
                },
            }
        }),
{
}

/// One step of `p_and_rest`.
pub proof fn lemma_p_and_rest(s: Seq<char>, lhs: SExpr, st: PState)
    ensures
        p_and_rest(s, lhs, st) == ({
            if at(st, Sym::And) {
                match adv(s, st) {
                    Err(e) => Err(e),
                    Ok(st1) => if !ahead(s, st1, st) {
                        Err(SParseError::Stalled)
                    } else {
                        match p_match(s, st1) {
                            Err(e) => Err(e),
                            Ok((r, st2)) => if !ahead(s, st2, st) {
                                Err(SParseError::Stalled)
                            } else {
                                p_and_rest(s, SExpr::Binary(Op::And, Box::new(lhs), Box::new(r)), st2)
                            },
                        }
                    },
                }
            } else {
                Ok((lhs, st))
            }
        }),
{
}

/// One step of `p_or`.
pub proof fn lemma_p_or(s: Seq<char>, st: PState)
    ensures
        p_or(s, st) == ({
            match p_and(s, st) {
                Err(e) => Err(e),
                Ok((l, st1)) => if !ahead(s, st1, st) {
                    Err(SParseError::Stalled)
                } else {
                    p_or_rest(s, l, st1)
                },
            }
        }),
{
}

/// One step of `p_or_rest`.
pub proof fn lemma_p_or_rest(s: Seq<char>, lhs: SExpr, st: PState)
    ensures
        p_or_rest(s, lhs, st) == ({
            if at(st, Sym::Or) {
                match adv(s, st) {
                    Err(e) => Err(e),
                    Ok(st1) => if !ahead(s, st1, st) {
                        Err(SParseError::Stalled)
                    } else {
                        match p_and(s, st1) {
                            Err(e) => Err(e),
                            Ok((r, st2)) => if !ahead(s, st2, st) {
                                Err(SParseError::Stalled)
                            } else {
                                p_or_rest(s, SExpr::Binary(Op::Or, Box::new(lhs), Box::new(r)), st2)
                            },
                        }
                    },
                }
            } else {
                Ok((lhs, st))
            }
        }),
{
}

/// One step of `p_ternary`.
pub proof fn lemma_p_ternary(s: Seq<char>, st: PState)
    ensures
        p_ternary(s, st) == ({
            match p_or(s, st) {
                Err(e) => Err(e),
                Ok((l, st1)) => if at(st1, Sym::Question) {
                    match adv(s, st1) {
                        Err(e) => Err(e),
                        Ok(st2) => if !ahead(s, st2, st) {
                            Err(SParseError::Stalled)
                        } else {
                            match p_ternary(s, st2) {
                                Err(e) => Err(e),
                                Ok((t, st3)) => match pexpect(s, st3, Sym::Colon) {
                                    Err(e) => Err(e),
                                    Ok(st4) => if !ahead(s, st4, st) {
                                        Err(SParseError::Stalled)
                                    } else {
                                        match p_ternary(s, st4) {
                                            Err(e) => Err(e),
                                            Ok((f, st5)) => Ok(
                                                (
                                                    SExpr::Ternary(Box::new(l), Box::new(t), Box::new(f)),
                                                    st5,
                                                ),
                                            ),
                                        }
                                    },
                                },
                            }
                        },
                    }
                } else {
                    match assign_op(st1) {
                        None => Ok((l, st1)),
                        Some(op) => match adv(s, st1) {
                            Err(e) => Err(e),
                            Ok(st2) => if !ahead(s, st2, st) {
                                Err(SParseError::Stalled)
                            } else {
                                match p_ternary(s, st2) {
                                    Err(e) => Err(e),
                                    Ok((r, st3)) => Ok((assignment(op, l, r), st3)),
                                }
                            },
                        },
                    }
                },
            }
        }),
{
}

/// One step of `p_expr`.
pub proof fn lemma_p_expr(s: Seq<char>, st: PState)
    ensures
        p_expr(s, st) == ({
            p_ternary(s, st)
        }),
{
}

/// One step of `p_skip_nls`.
pub proof fn lemma_p_skip_nls(s: Seq<char>, st: PState)
    ensures
        p_skip_nls(s, st) == ({
            if at(st, Sym::Newline) {
                match adv(s, st) {
                    Err(e) => Err(e),
                    Ok(st1) => if !ahead(s, st1, st) {
                        Err(SParseError::Stalled)
                    } else {
                        p_skip_nls(s, st1)
                    },
                }
            } else {
                Ok(st)
            }
        }),
{
}

/// One step of `p_skip_terms`.
pub proof fn lemma_p_skip_terms(s: Seq<char>, st: PState)
    ensures
        p_skip_terms(s, st) == ({
            if at(st, Sym::Newline) || at(st, Sym::Semi) {
                match adv(s, st) {
                    Err(e) => Err(e),
                    Ok(st1) => if !ahead(s, st1, st) {
                        Err(SParseError::Stalled)
                    } else {
                        p_skip_terms(s, st1)
                    },
                }
            } else {
                Ok(st)
            }
        }),
{
}

/// One step of `p_finish_var`.
pub proof fn lemma_p_finish_var(s: Seq<char>, var: Seq<char>, st: PState)
    ensures
        p_finish_var(s, var, st) == ({
            let lhs = SExpr::Var(var);
            let op = if at(st, Sym::PlusEq) {
                Some(Op::Add)
            } else if at(st, Sym::MinusEq) {
                Some(Op::Sub)
            } else if at(st, Sym::StarEq) {
                Some(Op::Mul)
            } else if at(st, Sym::SlashEq) {
                Some(Op::Div)
            } else if at(st, Sym::PercentEq) {
                Some(Op::Mod)
            } else {
                None
            };
            if at(st, Sym::Eq) || op is Some {
                match adv(s, st) {
                    Err(e) => Err(e),
                    Ok(st1) => match p_expr(s, st1) {
                        Err(e) => Err(e),
                        Ok((rhs, st2)) => Ok((assignment(op, lhs, rhs), st2)),
                    },
                }
            } else if at(st, Sym::PlusPlus) || at(st, Sym::MinusMinus) {
                match adv(s, st) {
                    Err(e) => Err(e),
                    Ok(st1) => Ok(
                        (
                            SExpr::PostIncDec(
                                Box::new(lhs),
                                if at(st, Sym::PlusPlus) {
                                    Op::Inc
                                } else {
                                    Op::Dec
                                },
                            ),
                            st1,
                        ),
                    ),
                }
            } else {
                Ok((lhs, st))
            }
        }),
{
}

/// One step of `p_redirect`.
pub proof fn lemma_p_redirect(s: Seq<char>, st: PState)
    ensures
        p_redirect(s, st) == ({
            if at(st, Sym::Gt) || at(st, Sym::Append) || at(st, Sym::Pipe) {
                match adv(s, st) {
                    Err(e) => Err(e),
                    Ok(st1) => match p_primary(s, st1) {
                        Err(e) => Err(e),
                        Ok((e, st2)) => Ok(
                            (
                                Some(
                                    if at(st, Sym::Gt) {
                                        SRedirect::File(e)
                                    } else if at(st, Sym::Append) {
                                        SRedirect::Append(e)
                                    } else {
                                        SRedirect::Pipe(e)
                                    },
                                ),
                                st2,
                            ),
                        ),
                    },
                }
            } else {
                Ok((None, st))
            }
        }),
{
}

/// One step of `p_opt_expr`.
pub proof fn lemma_p_opt_expr(s: Seq<char>, st: PState)
    ensures
        p_opt_expr(s, st) == ({
            if stmt_end(st) {
                Ok((None, st))
            } else {
                match p_expr(s, st) {
                    Err(e) => Err(e),
                    Ok((e, st1)) => Ok((Some(e), st1)),
                }
            }
        }),
{
}

/// One step of `p_delete`.
pub proof fn lemma_p_delete(s: Seq<char>, st: PState)
    ensures
        p_delete(s, st) == ({
            match adv(s, st) {
                Err(e) => Err(e),
                Ok(st1) => match st1.cur {
                    SpecTK::Ident(name) => match adv(s, st1) {
                        Err(e) => Err(e),
                        Ok(st2) => if at(st2, Sym::LBrack) {
                            match adv(s, st2) {
                                Err(e) => Err(e),
                                Ok(st3) => match p_list(s, st3, Sym::RBrack) {
                                    Err(e) => Err(e),
                                    Ok((keys, st4)) => Ok((SStmt::Delete(name, Some(keys)), st4)),
                                },
                            }
                        } else {
                            Ok((SStmt::Delete(name, None), st2))
                        },
                    },
                    _ => Err(SParseError::ExpectedArrayAfterDelete(st.line)),
                },
            }
        }),
{
}

/// One step of `p_print_args`.
pub proof fn lemma_p_print_args(s: Seq<char>, st: PState)
    ensures
        p_print_args(s, st) == ({
            if !stmt_end(st) && !at(st, Sym::RParen) {
                match p_expr(s, st) {
                    Err(e) => Err(e),
                    Ok((a0, st1)) => p_more(s, seq![a0], st1),
                }
            } else {
                Ok((Seq::empty(), st))
            }
        }),
{
}

/// One step of `p_print`.
pub proof fn lemma_p_print(s: Seq<char>, st: PState)
    ensures
        p_print(s, st) == ({
            match adv(s, st) {
                Err(e) => Err(e),
                Ok(st1) => {
                    let paren = at(st1, Sym::LParen);
                    match if paren {
                        adv(s, st1)
                    } else {
                        Ok(st1)
                    } {
                        Err(e) => Err(e),
                        Ok(st2) => match p_print_args(s, st2) {
                            Err(e) => Err(e),
                            Ok((args, st3)) => match if paren && at(st3, Sym::RParen) {
                                adv(s, st3)
                            } else {
                                Ok(st3)
                            } {
                                Err(e) => Err(e),
                                Ok(st4) => match p_redirect(s, st4) {
                                    Err(e) => Err(e),
                                    Ok((red, st5)) => Ok(
                                        (
                                            if at(st, Sym::Printf) {
                                                SStmt::Printf(args, red)
                                            } else {
                                                SStmt::Print(args, red)
                                            },
                                            st5,
                                        ),
                                    ),
                                },
                            },
                        },
                    }
                },
            }
        }),
{
}

/// One step of `p_block`.
pub proof fn lemma_p_block(s: Seq<char>, st: PState)
    ensures
        p_block(s, st) == ({
            match pexpect(s, st, Sym::LBrace) {
                Err(e) => Err(e),
                Ok(st1) => match p_skip_terms(s, st1) {
                    Err(e) => Err(e),
                    Ok(st2) => if !ahead(s, st2, st) {
                        Err(SParseError::Stalled)
                    } else {
                        p_block_rest(s, Seq::empty(), st2)
                    },
                },
            }
        }),
{
}

/// One step of `p_block_rest`.
pub proof fn lemma_p_block_rest(s: Seq<char>, acc: Seq<SStmt>, st: PState)
    ensures
        p_block_rest(s, acc, st) == ({
            if at(st, Sym::RBrace) {
                match adv(s, st) {
                    Err(e) => Err(e),
                    Ok(st1) => Ok((SStmt::Block(acc), st1)),
                }
            } else if at(st, Sym::Eof) {
                Err(SParseError::UnclosedBlock)
            } else {
                match p_stmt(s, st) {
                    Err(e) => Err(e),
                    Ok((x, st1)) => match p_skip_terms(s, st1) {
                        Err(e) => Err(e),
                        Ok(st2) => if !ahead(s, st2, st) {
                            Err(SParseError::Stalled)
                        } else {
                            p_block_rest(s, acc.push(x), st2)
                        },
                    },
                }
            }
        }),
{
}

/// One step of `p_if`.
pub proof fn lemma_p_if(s: Seq<char>, st: PState)
    ensures
        p_if(s, st) == ({
            match adv(s, st) {
                Err(e) => Err(e),
                Ok(st1) => match pexpect(s, st1, Sym::LParen) {
                    Err(e) => Err(e),
                    Ok(st2) => match p_expr(s, st2) {
                        Err(e) => Err(e),
                        Ok((cond, st3)) => match pexpect(s, st3, Sym::RParen) {
                            Err(e) => Err(e),
                            Ok(st4) => match p_skip_nls(s, st4) {
                                Err(e) => Err(e),
                                Ok(st5) => if !ahead(s, st5, st) {
                                    Err(SParseError::Stalled)
                                } else {
                                    match p_stmt(s, st5) {
                                        Err(e) => Err(e),
                                        Ok((then, st6)) => match p_skip_terms(s, st6) {
                                            Err(e) => Err(e),
                                            Ok(st7) => if at(st7, Sym::Else) {
                                                match adv(s, st7) {
                                                    Err(e) => Err(e),
                                                    Ok(st8) => match p_skip_nls(s, st8) {
                                                        Err(e) => Err(e),
                                                        Ok(st9) => if !ahead(s, st9, st) {
                                                            Err(SParseError::Stalled)
                                                        } else {
                                                            match p_stmt(s, st9) {
                                                                Err(e) => Err(e),
                                                                Ok((els, st10)) => Ok(
                                                                    (
                                                                        SStmt::If(
                                                                            cond,
                                                                            Box::new(then),
                                                                            Some(Box::new(els)),
                                                                        ),
                                                                        st10,
                                                                    ),
                                                                ),
                                                            }
                                                        },
                                                    },
                                                }
                                            } else {
                                                Ok((SStmt::If(cond, Box::new(then), None), st7))
                                            },
                                        },
                                    }
                                },
                            },
                        },
                    },
                },
            }
        }),
{
}

/// One step of `p_while`.
pub proof fn lemma_p_while(s: Seq<char>, st: PState)
    ensures
        p_while(s, st) == ({
            match adv(s, st) {
                Err(e) => Err(e),
                Ok(st1) => match pexpect(s, st1, Sym::LParen) {
                    Err(e) => Err(e),
                    Ok(st2) => match p_expr(s, st2) {
                        Err(e) => Err(e),
                        Ok((cond, st3)) => match pexpect(s, st3, Sym::RParen) {
                            Err(e) => Err(e),
                            Ok(st4) => match p_skip_nls(s, st4) {
                                Err(e) => Err(e),
                                Ok(st5) => if !ahead(s, st5, st) {
                                    Err(SParseError::Stalled)
                                } else {
                                    match p_stmt(s, st5) {
                                        Err(e) => Err(e),
                                        Ok((body, st6)) => Ok((SStmt::While(cond, Box::new(body)), st6)),
                                    }
                                },
                            },
                        },
                    },
                },
            }
        }),
{
}

/// One step of `p_do`.
pub proof fn lemma_p_do(s: Seq<char>, st: PState)
    ensures
        p_do(s, st) == ({
            match adv(s, st) {
                Err(e) => Err(e),
                Ok(st1) => match p_skip_nls(s, st1) {
                    Err(e) => Err(e),
                    Ok(st2) => if !ahead(s, st2, st) {
                        Err(SParseError::Stalled)
                    } else {
                        match p_stmt(s, st2) {
                            Err(e) => Err(e),
                            Ok((body, st3)) => match p_skip_terms(s, st3) {
                                Err(e) => Err(e),
                                Ok(st4) => match adv(s, st4) {
                                    Err(e) => Err(e),
                                    Ok(st5) => match pexpect(s, st5, Sym::LParen) {
                                        Err(e) => Err(e),
                                        Ok(st6) => match p_expr(s, st6) {
                                            Err(e) => Err(e),
                                            Ok((cond, st7)) => match pexpect(s, st7, Sym::RParen) {
                                                Err(e) => Err(e),
                                                Ok(st8) => Ok((SStmt::DoWhile(Box::new(body), cond), st8)),
                                            },
                                        },
                                    },
                                },
                            },
                        }
                    },
                },
            }
        }),
{
}

/// One step of `p_for_tail`.
pub proof fn lemma_p_for_tail(s: Seq<char>, init: Option<Box<SStmt>>, st: PState)
    ensures
        p_for_tail(s, init, st) == ({
            match pexpect(s, st, Sym::Semi) {
                Err(e) => Err(e),
                Ok(st1) => match if !at(st1, Sym::Semi) {
                    p_opt_expr_some(s, st1)
                } else {
                    Ok((None, st1))
                } {
                    Err(e) => Err(e),
                    Ok((cond, st2)) => match pexpect(s, st2, Sym::Semi) {
                        Err(e) => Err(e),
                        Ok(st3) => match if !at(st3, Sym::RParen) {
                            p_opt_expr_some(s, st3)
                        } else {
                            Ok((None, st3))
                        } {
                            Err(e) => Err(e),
                            Ok((post, st4)) => match pexpect(s, st4, Sym::RParen) {
                                Err(e) => Err(e),
                                Ok(st5) => match p_skip_nls(s, st5) {
                                    Err(e) => Err(e),
                                    Ok(st6) => if !ahead(s, st6, st) {
                                        Err(SParseError::Stalled)
                                    } else {
                                        match p_stmt(s, st6) {
                                            Err(e) => Err(e),
                                            Ok((body, st7)) => Ok(
                                                (
                                                    SStmt::For(
                                                        init,
                                                        cond,
                                                        match post {
                                                            Some(p) => Some(Box::new(SStmt::Expr(p))),
                                                            None => None,
                                                        },
                                                        Box::new(body),
                                                    ),
                                                    st7,
                                                ),
                                            ),
                                        }
                                    },
                                },
                            },
                        },
                    },
                },
            }
        }),
{
}

/// One step of `p_for`.
pub proof fn lemma_p_for(s: Seq<char>, st: PState)
    ensures
        p_for(s, st) == ({
            match adv(s, st) {
                Err(e) => Err(e),
                Ok(st1) => match pexpect(s, st1, Sym::LParen) {
                    Err(e) => Err(e),
                    Ok(st2) => match st2.cur {
                        SpecTK::Ident(var) => match adv(s, st2) {
                            Err(e) => Err(e),
                            Ok(st3) => {
                                let after_in = if at(st3, Sym::In) {
                                    match adv(s, st3) {
                                        Err(e) => Err(e),
                                        Ok(st4) => match st4.cur {
                                            SpecTK::Ident(arr) => Ok(Some((arr, st4))),
                                            _ => Ok(None),
                                        },
                                    }
                                } else {
                                    Ok(None)
                                };
                                match after_in {
                                    Err(e) => Err(e),
                                    Ok(Some((arr, st4))) => match adv(s, st4) {
                                        Err(e) => Err(e),
                                        Ok(st5) => match pexpect(s, st5, Sym::RParen) {
                                            Err(e) => Err(e),
                                            Ok(st6) => match p_skip_nls(s, st6) {
                                                Err(e) => Err(e),
                                                Ok(st7) => if !ahead(s, st7, st) {
                                                    Err(SParseError::Stalled)
                                                } else {
                                                    match p_stmt(s, st7) {
                                                        Err(e) => Err(e),
                                                        Ok((body, st8)) => Ok(
                                                            (SStmt::ForIn(var, arr, Box::new(body)), st8),
                                                        ),
                                                    }
                                                },
                                            },
                                        },
                                    },
                                    Ok(None) => {
                                        let stv = if at(st3, Sym::In) {
                                            match adv(s, st3) {
                                                Ok(st4) => st4,
                                                Err(_) => st3,
                                            }
                                        } else {
                                            st3
                                        };
                                        match p_finish_var(s, var, stv) {
                                            Err(e) => Err(e),
                                            Ok((init, sta)) => if !ahead(s, sta, st) {
                                                Err(SParseError::Stalled)
                                            } else {
                                                p_for_tail(s, Some(Box::new(SStmt::Expr(init))), sta)
                                            },
                                        }
                                    },
                                }
                            },
                        },
                        _ => match if !at(st2, Sym::Semi) {
                            match p_expr(s, st2) {
                                Err(e) => Err(e),
                                Ok((e, st3)) => Ok((Some(Box::new(SStmt::Expr(e))), st3)),
                            }
                        } else {
                            Ok((None, st2))
                        } {
                            Err(e) => Err(e),
                            Ok((init, st3)) => if !ahead(s, st3, st) {
                                Err(SParseError::Stalled)
                            } else {
                                p_for_tail(s, init, st3)
                            },
                        },
                    },
                },
            }
        }),
{
}

/// One step of `p_stmt`.
pub proof fn lemma_p_stmt(s: Seq<char>, st: PState)
    ensures
        p_stmt(s, st) == ({
            if at(st, Sym::If) {
                p_if(s, st)
            } else if at(st, Sym::While) {
                p_while(s, st)
            } else if at(st, Sym::Do) {
                p_do(s, st)
            } else if at(st, Sym::For) {
                p_for(s, st)
            } else if at(st, Sym::Break) || at(st, Sym::Continue) || at(st, Sym::Next) {
                match adv(s, st) {
                    Err(e) => Err(e),
                    Ok(st1) => Ok(
                        (
                            if at(st, Sym::Break) {
                                SStmt::Break
                            } else if at(st, Sym::Continue) {
                                SStmt::Continue
                            } else {
                                SStmt::Next
                            },
                            st1,
                        ),
                    ),
                }
            } else if at(st, Sym::Exit) || at(st, Sym::Return) {
                match adv(s, st) {
                    Err(e) => Err(e),
                    Ok(st1) => match p_opt_expr(s, st1) {
                        Err(e) => Err(e),
                        Ok((e, st2)) => Ok(
                            (
                                if at(st, Sym::Exit) {
                                    SStmt::Exit(e)
                                } else {
                                    SStmt::Return(e)
                                },
                                st2,
                            ),
                        ),
                    },
                }
            } else if at(st, Sym::Delete) {
                p_delete(s, st)
            } else if at(st, Sym::Print) || at(st, Sym::Printf) {
                p_print(s, st)
            } else if at(st, Sym::LBrace) {
                p_block(s, st)
            } else {
                match p_expr(s, st) {
                    Err(e) => Err(e),
                    Ok((e, st1)) => Ok((SStmt::Expr(e), st1)),
                }
            }
        }),
{
}

/// One step of `p_rule`.
pub proof fn lemma_p_rule(s: Seq<char>, st: PState)
    ensures
        p_rule(s, st) == ({
            let pat = if at(st, Sym::BEGIN) || at(st, Sym::END) {
                match adv(s, st) {
                    Err(e) => Err(e),
                    Ok(st1) => Ok(
                        (
                            if at(st, Sym::BEGIN) {
                                SPattern::Begin
                            } else {
                                SPattern::End
                            },
                            st1,
                        ),
                    ),
                }
            } else if at(st, Sym::LBrace) {
                Ok((SPattern::Always, st))
            } else {
                match p_expr(s, st) {
                    Err(e) => Err(e),
                    Ok((e1, st1)) => if at(st1, Sym::Comma) {
                        match adv(s, st1) {
                            Err(e) => Err(e),
                            Ok(st2) => match p_skip_nls(s, st2) {
                                Err(e) => Err(e),
                                Ok(st3) => match p_expr(s, st3) {
                                    Err(e) => Err(e),
                                    Ok((e2, st4)) => Ok((SPattern::Range(e1, e2), st4)),
                                },
                            },
                        }
                    } else {
                        Ok((SPattern::Expr(e1), st1))
                    },
                }
            };
            match pat {
                Err(e) => Err(e),
                Ok((pattern, st1)) => match p_skip_nls(s, st1) {
                    Err(e) => Err(e),
                    Ok(st2) => if at(st2, Sym::LBrace) {
                        match p_block(s, st2) {
                            Err(e) => Err(e),
                            Ok((action, st3)) => Ok((SRule { pattern, action }, st3)),
                        }
                    } else {
                        Ok(
                            (
                                SRule { pattern, action: SStmt::Print(Seq::empty(), None) },
                                st2,
                            ),
                        )
                    },
                },
            }
        }),
{
}

/// One step of `p_params`.
pub proof fn lemma_p_params(s: Seq<char>, acc: Seq<Seq<char>>, st: PState)
    ensures
        p_params(s, acc, st) == ({
            match st.cur {
                SpecTK::Ident(p) => match adv(s, st) {
                    Err(e) => Err(e),
                    Ok(st1) => match if at(st1, Sym::Comma) {
                        adv(s, st1)
                    } else {
                        Ok(st1)
                    } {
                        Err(e) => Err(e),
                        Ok(st2) => if !ahead(s, st2, st) {
                            Err(SParseError::Stalled)
                        } else {
                            p_params(s, acc.push(p), st2)
                        },
                    },
                },
                _ => Ok((acc, st)),
            }
        }),
{
}

/// One step of `p_function`.
pub proof fn lemma_p_function(s: Seq<char>, st: PState)
    ensures
        p_function(s, st) == ({
            match adv(s, st) {
                Err(e) => Err(e),
                Ok(st1) => match st1.cur {
                    SpecTK::Ident(name) => match adv(s, st1) {
                        Err(e) => Err(e),
                        Ok(st2) => match pexpect(s, st2, Sym::LParen) {
                            Err(e) => Err(e),
                            Ok(st3) => match p_params(s, Seq::empty(), st3) {
                                Err(e) => Err(e),
                                Ok((params, st4)) => match pexpect(s, st4, Sym::RParen) {
                                    Err(e) => Err(e),
                                    Ok(st5) => match p_skip_nls(s, st5) {
                                        Err(e) => Err(e),
                                        Ok(st6) => match p_block(s, st6) {
                                            Err(e) => Err(e),
                                            Ok((body, st7)) => Ok(
                                                ((name, SFunction { params, body }), st7),
                                            ),
                                        },
                                    },
                                },
                            },
                        },
                    },
                    _ => Err(SParseError::ExpectedFunctionName(st1.line)),
                },
            }
        }),
{
}

/// One step of `p_program_rest`.
pub proof fn lemma_p_program_rest(s: Seq<char>, rules: Seq<SRule>, funcs: Seq<(Seq<char>, SFunction)>, st: PState)
    ensures
        p_program_rest(s, rules, funcs, st) == ({
            if at(st, Sym::Eof) {
                Ok((rules, funcs))
            } else if at(st, Sym::Function) {
                match p_function(s, st) {
                    Err(e) => Err(e),
                    Ok(((name, f), st1)) => match p_skip_terms(s, st1) {
                        Err(e) => Err(e),
                        Ok(st2) => if !ahead(s, st2, st) {
                            Err(SParseError::Stalled)
                        } else {
                            p_program_rest(s, rules, sdefine(funcs, name, f), st2)
                        },
                    },
                }
            } else {
                match p_rule(s, st) {
                    Err(e) => Err(e),
                    Ok((rule, st1)) => match p_skip_terms(s, st1) {
                        Err(e) => Err(e),
                        Ok(st2) => if !ahead(s, st2, st) {
                            Err(SParseError::Stalled)
                        } else {
                            p_program_rest(s, rules.push(rule), funcs, st2)
                        },
                    },
                }
            }
        }),
{
}

/// One step of `p_program`.
pub proof fn lemma_p_program(s: Seq<char>, st: PState)
    ensures
        p_program(s, st) == ({
            match p_skip_terms(s, st) {
                Err(e) => Err(e),
                Ok(st1) => p_program_rest(s, Seq::empty(), Seq::empty(), st1),
            }
        }),
{
}

} // verus!
