use vstd::prelude::*;

use crate::awk_syntax::{
    add_op, adv, ahead, assignment, at, cmp_op, concat_stops, lemma_p_add, lemma_p_add_rest,
    lemma_p_and, lemma_p_and_rest, lemma_p_block, lemma_p_block_rest, lemma_p_cmp, lemma_p_cmp_rest,
    lemma_p_concat, lemma_p_concat_rest, lemma_p_delete, lemma_p_do, lemma_p_expr,
    lemma_p_finish_var, lemma_p_for, lemma_p_for_tail, lemma_p_function, lemma_p_if, lemma_p_in,
    lemma_p_in_rest, lemma_p_list, lemma_p_match, lemma_p_match_rest, lemma_p_more, lemma_p_mul,
    lemma_p_mul_rest, lemma_p_name_tail, lemma_p_opt_expr, lemma_p_or, lemma_p_or_rest,
    lemma_p_params, lemma_p_postfix, lemma_p_pow, lemma_p_primary, lemma_p_print,
    lemma_p_print_args, lemma_p_program, lemma_p_program_rest, lemma_p_redirect, lemma_p_regex_at,
    lemma_p_rule, lemma_p_skip_nls, lemma_p_skip_terms, lemma_p_stmt, lemma_p_sym_primary,
    lemma_p_ternary, lemma_p_unary, lemma_p_while, lemma_sexprs_empty, lemma_sexprs_len,
    lemma_sexprs_push, lemma_sstmts_empty, lemma_sstmts_push, mul_op, p_add, p_add_rest, p_and,
    p_and_rest, p_block, p_block_rest, p_cmp, p_cmp_rest, p_concat, p_concat_rest, p_delete, p_do,
    p_expr, p_finish_var, p_for, p_for_tail, p_function, p_if, p_in, p_in_rest, p_list, p_match,
    p_match_rest, p_more, p_mul, p_mul_rest, p_opt_expr, p_or, p_or_rest, p_params, p_postfix,
    p_pow, p_primary, p_print, p_print_args, p_program, p_program_rest, p_redirect, p_rule,
    p_skip_nls, p_skip_terms, p_stmt, p_ternary, p_unary, p_while, pexpect, pmeasure, sdefine,
    sexpr, sexpr_opt, sexprs, sfunction, sfunctions, sredirect_opt, srule, srules, sstmt, sstmt_box,
    sstmts, stmt_end, PState, SExpr, SFunction, SParseError, SRule, SStmt,
};
use crate::text::views;
use crate::awk_lexer::{
    is_sym, lex, newlines_before, regex_lit, tk_is, LexError, Lexed, Lexer, SpecTK, Sym, Token, TK,
};

verus! {

// ---------------------------------------------------------------------------
// The syntax tree
// ---------------------------------------------------------------------------

/// The operators of awk expressions.
#[derive(Clone, Copy, PartialEq, Eq, Structural, Debug)]
pub enum Op {
    Add, Sub, Mul, Div, Mod, Pow,
    Lt, Le, Gt, Ge, EqEq, Ne,
    And, Or, Not, Neg, Plus,
    Inc, Dec,
}

#[derive(Debug)]
pub enum Expr {
    /// A number literal, kept as written.
    Num(String),
    Str(String),
    Regex(String),
    Field(Box<Expr>),
    Var(String),
    Array(String, Vec<Expr>),
    Assign(Box<Expr>, Box<Expr>),
    CompoundAssign(Op, Box<Expr>, Box<Expr>),
    PreIncDec(Op, Box<Expr>),
    PostIncDec(Box<Expr>, Op),
    Unary(Op, Box<Expr>),
    Binary(Op, Box<Expr>, Box<Expr>),
    Ternary(Box<Expr>, Box<Expr>, Box<Expr>),
    Match(Box<Expr>, Box<Expr>),
    Call(String, Vec<Expr>),
    Getline(Option<Box<Expr>>),
    InArray(Box<Expr>, String),
    Concat(Vec<Expr>),
}

#[derive(Debug)]
pub enum Redirect {
    File(Expr),
    Append(Expr),
    Pipe(Expr),
}

#[derive(Debug)]
pub enum Stmt {
    Block(Vec<Stmt>),
    Expr(Expr),
    Print(Vec<Expr>, Option<Redirect>),
    Printf(Vec<Expr>, Option<Redirect>),
    If(Expr, Box<Stmt>, Option<Box<Stmt>>),
    While(Expr, Box<Stmt>),
    DoWhile(Box<Stmt>, Expr),
    For(Option<Box<Stmt>>, Option<Expr>, Option<Box<Stmt>>, Box<Stmt>),
    ForIn(String, String, Box<Stmt>),
    Break,
    Continue,
    Next,
    Exit(Option<Expr>),
    Return(Option<Expr>),
    Delete(String, Option<Vec<Expr>>),
    Empty,
}

#[derive(Debug)]
pub enum Pattern {
    Begin,
    End,
    Expr(Expr),
    Range(Expr, Expr),
    Always,
}

#[derive(Debug)]
pub struct Rule {
    pub pattern: Pattern,
    pub action: Stmt,
}

#[derive(Debug)]
pub struct Function {
    pub params: Vec<String>,
    pub body: Stmt,
}

#[derive(Debug)]
pub struct Program {
    pub rules: Vec<Rule>,
    /// The user-defined functions by name; a later definition replaces an earlier one.
    pub functions: Vec<(String, Function)>,
}

/// Why a program could not be parsed.
#[derive(Debug)]
pub enum ParseError {
    Lex(LexError),
    Expected { expected: Sym, line: usize, got: TK },
    ExpectedFunctionName(usize),
    UnclosedBlock,
    ExpectedArrayAfterDelete(usize),
    ExpectedArrayAfterIn(usize),
    ExpectedRegex(usize),
    UnexpectedToken(TK, usize),
}

/// The function a name is bound to, searching from the front.
pub open spec fn lookup_function(fs: Seq<(String, Function)>, name: Seq<char>) -> Option<Function>
    decreases fs.len(),
{
    if fs.len() == 0 {
        None
    } else if fs[0].0@ == name {
        Some(fs[0].1)
    } else {
        lookup_function(fs.skip(1), name)
    }
}

/// Binds `name` to `f`, replacing an earlier binding of the same name (`HashMap::insert`).
pub fn define_function(fs: &mut Vec<(String, Function)>, name: String, f: Function)
    ensures
        lookup_function(final(fs)@, name@) == Some(f),
        forall|n: Seq<char>| n != name@ ==> lookup_function(final(fs)@, n) == lookup_function(old(fs)@, n),
        sfunctions(final(fs)@) == sdefine(sfunctions(old(fs)@), name@, sfunction(f)),
{
    let mut i: usize = 0;
    while i < fs.len()
        invariant
            i <= fs.len(),
            fs@ == old(fs)@,
            forall|j: int| 0 <= j < i ==> (#[trigger] fs@[j]).0@ != name@,
        decreases fs.len() - i,
    {
        if fs[i].0 == name {
            let ghost before = fs@;
            let ghost nm = name;
            fs.set(i, (name, f));
            proof {
                lemma_lookup_replace(before, i as int, name, f);
                lemma_sdefine_at(before, i as int, name, f);
            }
            return;
        }
        i = i + 1;
    }
    let ghost before = fs@;
    fs.push((name, f));
    proof {
        lemma_lookup_push(before, name, f);
        lemma_sdefine_new(before, name, f);
    }
}

proof fn lemma_sfunctions_skip(fs: Seq<(String, Function)>)
    requires
        fs.len() > 0,
    ensures
        sfunctions(fs) == seq![(fs[0].0@, sfunction(fs[0].1))] + sfunctions(fs.skip(1)),
{
    assert(sfunctions(fs) =~= seq![(fs[0].0@, sfunction(fs[0].1))] + sfunctions(fs.skip(1)));
}

/// Binding a name at its first occurrence `i` replaces that entry.
proof fn lemma_sdefine_at(fs: Seq<(String, Function)>, i: int, s: String, f: Function)
    requires
        0 <= i < fs.len(),
        fs[i].0@ == s@,
        forall|j: int| 0 <= j < i ==> (#[trigger] fs[j]).0@ != s@,
    ensures
        sdefine(sfunctions(fs), s@, sfunction(f)) == sfunctions(fs.update(i, (s, f))),
    decreases i,
{
    let g = fs.update(i, (s, f));
    lemma_sfunctions_skip(fs);
    lemma_sfunctions_skip(g);
    if i == 0 {
        assert(g.skip(1) =~= fs.skip(1));
        assert(sfunctions(fs).update(0, (s@, sfunction(f))) =~= sfunctions(g));
    } else {
        assert(fs[0].0@ != s@);
        lemma_sdefine_at(fs.skip(1), i - 1, s, f);
        assert(fs.skip(1).update(i - 1, (s, f)) =~= g.skip(1));
        assert(sfunctions(fs).skip(1) =~= sfunctions(fs.skip(1)));
    }
}

/// Binding a name that is not bound adds an entry at the end.
proof fn lemma_sdefine_new(fs: Seq<(String, Function)>, s: String, f: Function)
    requires
        forall|j: int| 0 <= j < fs.len() ==> (#[trigger] fs[j]).0@ != s@,
    ensures
        sdefine(sfunctions(fs), s@, sfunction(f)) == sfunctions(fs.push((s, f))),
    decreases fs.len(),
{
    let g = fs.push((s, f));
    lemma_sfunctions_skip(g);
    if fs.len() == 0 {
        assert(g.skip(1) =~= Seq::<(String, Function)>::empty());
        assert(sfunctions(g) =~= seq![(s@, sfunction(f))]);
    } else {
        lemma_sfunctions_skip(fs);
        assert(fs[0].0@ != s@);
        lemma_sdefine_new(fs.skip(1), s, f);
        assert(fs.skip(1).push((s, f)) =~= g.skip(1));
        assert(sfunctions(fs).skip(1) =~= sfunctions(fs.skip(1)));
    }
}

proof fn lemma_lookup_replace(fs: Seq<(String, Function)>, i: int, s: String, f: Function)
    requires
        0 <= i < fs.len(),
        fs[i].0@ == s@,
        forall|j: int| 0 <= j < i ==> (#[trigger] fs[j]).0@ != s@,
    ensures
        forall|n: Seq<char>| #![auto] lookup_function(fs.update(i, (s, f)), n) == (if n == s@ {
            Some(f)
        } else {
            lookup_function(fs, n)
        }),
    decreases i,
{
    let g = fs.update(i, (s, f));
    if i > 0 {
        assert(fs[0].0@ != s@);
        lemma_lookup_replace(fs.skip(1), i - 1, s, f);
        assert(g.skip(1) =~= fs.skip(1).update(i - 1, (s, f)));
    } else {
        assert(g.skip(1) =~= fs.skip(1));
    }
    assert forall|n: Seq<char>| #![auto] lookup_function(g, n) == (if n == s@ {
        Some(f)
    } else {
        lookup_function(fs, n)
    }) by {
        assert(g[0] == if i == 0 { (s, f) } else { fs[0] });
        if i > 0 {
            let h = fs.skip(1).update(i - 1, (s, f));
            assert(lookup_function(h, n) == (if n == s@ {
                Some(f)
            } else {
                lookup_function(fs.skip(1), n)
            }));
            assert(g.skip(1) == h);
        }
    }
}

proof fn lemma_lookup_push(fs: Seq<(String, Function)>, s: String, f: Function)
    requires
        forall|j: int| 0 <= j < fs.len() ==> (#[trigger] fs[j]).0@ != s@,
    ensures
        forall|n: Seq<char>| #![auto] lookup_function(fs.push((s, f)), n) == (if n == s@ {
            Some(f)
        } else {
            lookup_function(fs, n)
        }),
    decreases fs.len(),
{
    let g = fs.push((s, f));
    if fs.len() > 0 {
        assert(fs[0].0@ != s@);
        lemma_lookup_push(fs.skip(1), s, f);
        assert(g.skip(1) =~= fs.skip(1).push((s, f)));
    } else {
        assert(g.skip(1) =~= Seq::<(String, Function)>::empty());
    }
    assert forall|n: Seq<char>| #![auto] lookup_function(g, n) == (if n == s@ {
        Some(f)
    } else {
        lookup_function(fs, n)
    }) by {
        if fs.len() > 0 {
            assert(g[0] == fs[0]);
            let h = fs.skip(1).push((s, f));
            assert(lookup_function(h, n) == (if n == s@ {
                Some(f)
            } else {
                lookup_function(fs.skip(1), n)
            }));
            assert(g.skip(1) == h);
        } else {
            assert(g[0] == (s, f));
            assert(lookup_function(g.skip(1), n) == None::<Function>);
        }
    }
}

// ---------------------------------------------------------------------------
// The parser
// ---------------------------------------------------------------------------

pub struct AWKParser {
    pub lexer: Lexer,
    pub current: Token,
    pub peeked: Option<Token>,
}

/// A copy of a token kind.
pub fn clone_tk(k: &TK) -> (r: TK)
    ensures
        r@ == k@,
{
    match k {
        TK::Num(s) => TK::Num(s.clone()),
        TK::Str(s) => TK::Str(s.clone()),
        TK::Ident(s) => TK::Ident(s.clone()),
        TK::Regex(s) => TK::Regex(s.clone()),
        TK::Sym(x) => TK::Sym(*x),
    }
}

impl AWKParser {
    pub open spec fn wf(&self) -> bool {
        self.lexer.wf()
    }

    /// Where the parser stands, as a mathematical value.
    pub open spec fn pstate(&self) -> PState {
        PState {
            cur: self.current.kind@,
            line: self.current.line as int,
            pos: self.lexer.pos as int,
            peeked: match self.peeked {
                Some(t) => Some((t.kind@, t.line as int)),
                None => None,
            },
        }
    }

    /// The input left to read plus the tokens read but not yet consumed; every
    /// step that consumes a token other than end of input makes it smaller.
    pub open spec fn measure(&self) -> nat {
        pmeasure(self.lexer.chars@, self.pstate()) as nat
    }

    /// The input the parser reads.
    pub open spec fn src(&self) -> Seq<char> {
        self.lexer.chars@
    }

    /// `r` and the state `new` are what the grammar gives: the tree and the state
    /// after it, or the error.
    pub open spec fn yields_expr(
        r: Result<Expr, ParseError>,
        new: AWKParser,
        g: Result<(SExpr, PState), SParseError>,
    ) -> bool {
        match g {
            Ok((e, st)) => r matches Ok(x) && sexpr(x) == e && new.pstate() == st,
            Err(err) => r matches Err(x) && x@ == err,
        }
    }

    /// `r` and the state `new` are what the grammar gives for a step that builds nothing.
    pub open spec fn yields_state<T>(
        r: Result<T, ParseError>,
        new: AWKParser,
        g: Result<PState, SParseError>,
    ) -> bool {
        match g {
            Ok(st) => r is Ok && new.pstate() == st,
            Err(err) => r matches Err(x) && x@ == err,
        }
    }

    pub open spec fn at(&self, k: Sym) -> bool {
        is_sym(self.current.kind@, k)
    }

    /// `new` is `old` moved on by one token.
    pub open spec fn stepped(old: AWKParser, new: AWKParser) -> bool {
        &&& new.lexer.chars == old.lexer.chars
        &&& match old.peeked {
            Some(p) => new.current == p && new.peeked is None && new.lexer.pos == old.lexer.pos,
            None => new.peeked is None && match lex(old.lexer.chars@, old.lexer.pos as int) {
                Lexed::Tok(t, st, e) => new.current.kind@ == t && new.current.line == 1
                    + newlines_before(old.lexer.chars@, st) && new.lexer.pos == e,
                Lexed::Fail(_, _) => false,
            },
        }
    }

    /// `new` reads the same input as `old` and has consumed no less of it.
    pub open spec fn progressed(old: AWKParser, new: AWKParser) -> bool {
        &&& new.wf()
        &&& new.lexer.chars == old.lexer.chars
        &&& new.measure() <= old.measure()
    }

    pub fn new(src: &str) -> (p: AWKParser)
        requires
            src@.len() + 3 < usize::MAX,
        ensures
            p.wf(),
            p.lexer.chars@ == src@,
            p.peeked is None,
            match lex(src@, 0) {
                Lexed::Tok(t, st, e) => p.current.kind@ == t && p.current.line == 1 + newlines_before(
                    src@,
                    st,
                ) && p.lexer.pos == e,
                Lexed::Fail(_, _) => p.at(Sym::Eof) && p.current.line == 1,
            },
    {
        let mut lexer = Lexer::new(src);
        let current = match lexer.next_token() {
            Ok(t) => t,
            Err(_) => Token { kind: TK::Sym(Sym::Eof), line: 1 },
        };
        AWKParser { lexer, current, peeked: None }
    }

    /// Looks at the token after the current one without consuming either.
    pub fn peek(&mut self) -> (r: Result<&Token, ParseError>)
        requires
            old(self).wf(),
        ensures
            Self::progressed(*old(self), *final(self)),
            final(self).current == old(self).current,
            r matches Ok(t) ==> final(self).peeked == Some(*t),
            old(self).peeked is Some ==> r is Ok && *final(self) == *old(self),
            old(self).peeked is None ==> match lex(old(self).lexer.chars@, old(self).lexer.pos as int) {
                Lexed::Tok(t, st, e) => r is Ok && (final(self).peeked matches Some(p) && p.kind@
                    == t && p.line == 1 + newlines_before(old(self).lexer.chars@, st)
                    && final(self).lexer.pos == e),
                Lexed::Fail(k, st) => r matches Err(ParseError::Lex(err)) && err.kind == k
                    && err.line == 1 + newlines_before(old(self).lexer.chars@, st),
            },
    {
        if self.peeked.is_none() {
            let t = match self.lexer.next_token() {
                Ok(t) => t,
                Err(e) => return Err(ParseError::Lex(e)),
            };
            self.peeked = Some(t);
        }
        match &self.peeked {
            Some(t) => Ok(t),
            None => Err(ParseError::UnclosedBlock),
        }
    }

    /// Moves on to the next token and gives back the one that was current.
    pub fn advance(&mut self) -> (r: Result<Token, ParseError>)
        requires
            old(self).wf(),
        ensures
            Self::progressed(*old(self), *final(self)),
            r is Ok && !old(self).at(Sym::Eof) ==> final(self).measure() < old(self).measure(),
            r matches Ok(t) ==> t == old(self).current && Self::stepped(*old(self), *final(self)),
            r is Err <==> (old(self).peeked is None && lex(
                old(self).lexer.chars@,
                old(self).lexer.pos as int,
            ) is Fail),
            Self::yields_state(r, *final(self), adv(old(self).src(), old(self).pstate())),
    {
        proof {
            reveal(adv);
        }
        if self.peeked.is_some() {
            let p = self.peeked.take().unwrap();
            let mut t = p;
            std::mem::swap(&mut self.current, &mut t);
            Ok(t)
        } else {
            let next = match self.lexer.next_token() {
                Ok(n) => n,
                Err(e) => return Err(ParseError::Lex(e)),
            };
            let mut t = next;
            std::mem::swap(&mut self.current, &mut t);
            Ok(t)
        }
    }

    /// The current token when it is a symbol.
    fn cur_sym(&self) -> (r: Option<Sym>)
        ensures
            r == match self.current.kind@ {
                SpecTK::Sym(k) => Some(k),
                _ => None::<Sym>,
            },
    {
        match &self.current.kind {
            TK::Sym(k) => Some(*k),
            _ => None,
        }
    }

    /// The name in the current token when it is an identifier.
    fn cur_ident(&self) -> (r: Option<String>)
        ensures
            r matches Some(n) ==> self.current.kind@ == SpecTK::Ident(n@),
            r is None ==> !(self.current.kind@ is Ident),
    {
        match &self.current.kind {
            TK::Ident(n) => Some(n.clone()),
            _ => None,
        }
    }

    fn at_sym(&self, k: Sym) -> (r: bool)
        ensures
            r == self.at(k),
    {
        tk_is(&self.current.kind, k)
    }

    /// `r` and the state `new` are what the grammar gives for a statement.
    pub open spec fn yields_stmt(
        r: Result<Stmt, ParseError>,
        new: AWKParser,
        g: Result<(SStmt, PState), SParseError>,
    ) -> bool {
        match g {
            Ok((x, st)) => r matches Ok(y) && sstmt(y) == x && new.pstate() == st,
            Err(err) => r matches Err(y) && y@ == err,
        }
    }

    /// Skips line feeds.
    pub fn skip_nls(&mut self) -> (r: Result<(), ParseError>)
        requires
            old(self).wf(),
        ensures
            Self::progressed(*old(self), *final(self)),
            Self::yields_state(r, *final(self), p_skip_nls(old(self).src(), old(self).pstate())),
            r is Ok ==> !final(self).at(Sym::Newline),
            !old(self).at(Sym::Newline) ==> *final(self) == *old(self),
    {
        let ghost s0 = self.src();
        let ghost st0 = self.pstate();
        while self.at_sym(Sym::Newline)
            invariant
                Self::progressed(*old(self), *self),
                !old(self).at(Sym::Newline) ==> *self == *old(self),
                s0 == self.src(),
                st0 == old(self).pstate(),
                p_skip_nls(s0, st0) == p_skip_nls(s0, self.pstate()),
            decreases self.measure(),
        {
            proof {
                lemma_p_skip_nls(s0, self.pstate());
            }
            self.advance()?;
        }
        proof {
            lemma_p_skip_nls(s0, self.pstate());
        }
        Ok(())
    }

    /// Skips line feeds and semicolons.
    pub fn skip_terminators(&mut self) -> (r: Result<(), ParseError>)
        requires
            old(self).wf(),
        ensures
            Self::progressed(*old(self), *final(self)),
            Self::yields_state(r, *final(self), p_skip_terms(old(self).src(), old(self).pstate())),
            r is Ok ==> !final(self).at(Sym::Newline) && !final(self).at(Sym::Semi),
            !old(self).at(Sym::Newline) && !old(self).at(Sym::Semi) ==> *final(self) == *old(self)
                && r is Ok,
    {
        let ghost s0 = self.src();
        let ghost st0 = self.pstate();
        while self.at_sym(Sym::Newline) || self.at_sym(Sym::Semi)
            invariant
                Self::progressed(*old(self), *self),
                !old(self).at(Sym::Newline) && !old(self).at(Sym::Semi) ==> *self == *old(self),
                s0 == self.src(),
                st0 == old(self).pstate(),
                p_skip_terms(s0, st0) == p_skip_terms(s0, self.pstate()),
            decreases self.measure(),
        {
            proof {
                lemma_p_skip_terms(s0, self.pstate());
            }
            self.advance()?;
        }
        proof {
            lemma_p_skip_terms(s0, self.pstate());
        }
        Ok(())
    }

    /// Consumes the current token if it is `kind`, and fails otherwise.
    pub fn expect(&mut self, kind: Sym) -> (r: Result<(), ParseError>)
        requires
            old(self).wf(),
        ensures
            Self::progressed(*old(self), *final(self)),
            r is Ok ==> old(self).at(kind) && Self::stepped(*old(self), *final(self)),
            r is Ok && kind != Sym::Eof ==> final(self).measure() < old(self).measure(),
            !old(self).at(kind) ==> (r matches Err(ParseError::Expected { expected, line, got })
                && expected == kind && line == old(self).current.line && got@
                == old(self).current.kind@),
            Self::yields_state(r, *final(self), pexpect(old(self).src(), old(self).pstate(), kind)),
    {
        if self.at_sym(kind) {
            self.advance()?;
            Ok(())
        } else {
            Err(
                ParseError::Expected {
                    expected: kind,
                    line: self.current.line,
                    got: clone_tk(&self.current.kind),
                },
            )
        }
    }

    /// Whether the current token ends a statement.
    pub fn is_stmt_end(&self) -> (r: bool)
        ensures
            r == (self.at(Sym::Newline) || self.at(Sym::Semi) || self.at(Sym::RBrace) || self.at(
                Sym::Eof,
            )),
            r == stmt_end(self.pstate()),
    {
        self.at_sym(Sym::Newline) || self.at_sym(Sym::Semi) || self.at_sym(Sym::RBrace)
            || self.at_sym(Sym::Eof)
    }

    /// Parses a whole program: function definitions and rules.
    pub fn parse(self) -> (r: Result<Program, ParseError>)
        requires
            self.wf(),
        ensures
            match p_program(self.src(), self.pstate()) {
                Ok((rules, funcs)) => r matches Ok(prog) && srules(prog.rules@) == rules
                    && sfunctions(prog.functions@) == funcs,
                Err(err) => r matches Err(x) && x@ == err,
            },
    {
        let ghost s0 = self.src();
        let ghost st0 = self.pstate();
        proof {
            lemma_p_program(s0, st0);
        }
        let mut p = self;
        let mut rules: Vec<Rule> = Vec::new();
        let mut functions: Vec<(String, Function)> = Vec::new();
        p.skip_terminators()?;
        proof {
            assert(srules(rules@) =~= Seq::<SRule>::empty());
            assert(sfunctions(functions@) =~= Seq::<(Seq<char>, SFunction)>::empty());
        }
        while !p.at_sym(Sym::Eof)
            invariant
                p.wf(),
                s0 == p.src(),
                s0 == self.src(),
                st0 == self.pstate(),
                p_program(s0, st0) == p_program_rest(
                    s0,
                    srules(rules@),
                    sfunctions(functions@),
                    p.pstate(),
                ),
            decreases p.measure(),
        {
            proof {
                lemma_p_program_rest(s0, srules(rules@), sfunctions(functions@), p.pstate());
            }
            if p.at_sym(Sym::Function) {
                let (name, f) = p.parse_function()?;
                define_function(&mut functions, name, f);
            } else {
                let ghost before = rules@;
                let rule = p.parse_rule()?;
                rules.push(rule);
                proof {
                    assert(srules(rules@) =~= srules(before).push(srule(rule)));
                }
            }
            p.skip_terminators()?;
        }
        proof {
            lemma_p_program_rest(s0, srules(rules@), sfunctions(functions@), p.pstate());
        }
        Ok(Program { rules, functions })
    }

    /// Parses a function definition from the keyword `function` on: its name, its
    /// parameters and its body.
    fn parse_function(&mut self) -> (r: Result<(String, Function), ParseError>)
        requires
            old(self).wf(),
        ensures
            Self::progressed(*old(self), *final(self)),
            r is Ok ==> final(self).measure() < old(self).measure(),
            match p_function(old(self).src(), old(self).pstate()) {
                Ok(((name, f), st)) => r matches Ok(d) && d.0@ == name && sfunction(d.1) == f
                    && final(self).pstate() == st,
                Err(err) => r matches Err(x) && x@ == err,
            },
    {
        let ghost s0 = self.src();
        let ghost st0 = self.pstate();
        proof {
            lemma_p_function(s0, st0);
        }
        self.advance()?;
        let name = match self.cur_ident() {
            Some(n) => {
                self.advance()?;
                n
            },
            None => {
                return Err(ParseError::ExpectedFunctionName(self.current.line));
            },
        };
        self.expect(Sym::LParen)?;
        let ghost st3 = self.pstate();
        let ghost mid = self.measure();
        assert(p_params(s0, Seq::empty(), st3) matches Err(e) ==> p_function(s0, st0) == Err::<
            ((Seq<char>, SFunction), PState),
            SParseError,
        >(e));
        let mut params: Vec<String> = Vec::new();
        proof {
            assert(views(params@) =~= Seq::<Seq<char>>::empty());
        }
        loop
            invariant
                Self::progressed(*old(self), *self),
                self.measure() <= mid,
                mid < old(self).measure(),
                s0 == self.src(),
                st0 == old(self).pstate(),
                p_params(s0, Seq::empty(), st3) == p_params(s0, views(params@), self.pstate()),
                p_params(s0, Seq::empty(), st3) matches Err(e) ==> p_function(s0, st0) == Err::<
                    ((Seq<char>, SFunction), PState),
                    SParseError,
                >(e),
            ensures
                !(self.current.kind@ is Ident),
            decreases self.measure(),
        {
            proof {
                lemma_p_params(s0, views(params@), self.pstate());
            }
            let q = match self.cur_ident() {
                Some(q) => q,
                None => {
                    break;
                },
            };
            self.advance()?;
            if self.at_sym(Sym::Comma) {
                self.advance()?;
            }
            let ghost before = params@;
            params.push(q);
            proof {
                assert(views(params@) =~= views(before).push(q@));
            }
        }
        proof {
            lemma_p_params(s0, views(params@), self.pstate());
        }
        self.expect(Sym::RParen)?;
        self.skip_nls()?;
        let body = self.parse_block()?;
        Ok((name, Function { params, body }))
    }

    /// Parses a rule: a pattern and an action, either of which may be left out.
    pub fn parse_rule(&mut self) -> (r: Result<Rule, ParseError>)
        requires
            old(self).wf(),
        ensures
            Self::progressed(*old(self), *final(self)),
            r is Ok ==> final(self).measure() < old(self).measure(),
            match p_rule(old(self).src(), old(self).pstate()) {
                Ok((x, st)) => r matches Ok(y) && srule(y) == x && final(self).pstate() == st,
                Err(err) => r matches Err(y) && y@ == err,
            },
    {
        proof {
            lemma_p_rule(self.src(), self.pstate());
        }
        let pattern = match self.cur_sym() {
            Some(Sym::BEGIN) => {
                self.advance()?;
                Pattern::Begin
            },
            Some(Sym::END) => {
                self.advance()?;
                Pattern::End
            },
            Some(Sym::LBrace) => Pattern::Always,
            _ => {
                let e1 = self.parse_expr()?;
                if self.at_sym(Sym::Comma) {
                    self.advance()?;
                    self.skip_nls()?;
                    let e2 = self.parse_expr()?;
                    Pattern::Range(e1, e2)
                } else {
                    Pattern::Expr(e1)
                }
            },
        };
        self.skip_nls()?;
        let action = if self.at_sym(Sym::LBrace) {
            self.parse_block()?
        } else {
            proof {
                lemma_sexprs_empty();
            }
            Stmt::Print(Vec::new(), None)
        };
        Ok(Rule { pattern, action })
    }

    /// Parses a block in braces.
    pub fn parse_block(&mut self) -> (r: Result<Stmt, ParseError>)
        requires
            old(self).wf(),
        ensures
            Self::progressed(*old(self), *final(self)),
            r is Ok ==> final(self).measure() < old(self).measure(),
            Self::yields_stmt(r, *final(self), p_block(old(self).src(), old(self).pstate())),
        decreases old(self).measure(), 0int,
    {
        let ghost s0 = self.src();
        let ghost st0 = self.pstate();
        proof {
            lemma_p_block(s0, st0);
        }
        self.expect(Sym::LBrace)?;
        self.skip_terminators()?;
        let mut stmts: Vec<Stmt> = Vec::new();
        proof {
            lemma_sstmts_empty();
            assert(stmts@ =~= Seq::<Stmt>::empty());
        }
        while !self.at_sym(Sym::RBrace)
            invariant
                Self::progressed(*old(self), *self),
                self.measure() < old(self).measure(),
                s0 == self.src(),
                st0 == old(self).pstate(),
                p_block(s0, st0) == p_block_rest(s0, sstmts(stmts@), self.pstate()),
            decreases self.measure(),
        {
            proof {
                lemma_p_block_rest(s0, sstmts(stmts@), self.pstate());
            }
            if self.at_sym(Sym::Eof) {
                return Err(ParseError::UnclosedBlock);
            }
            let ghost before = stmts@;
            let st = self.parse_stmt()?;
            stmts.push(st);
            proof {
                lemma_sstmts_push(before, st);
            }
            self.skip_terminators()?;
        }
        proof {
            lemma_p_block_rest(s0, sstmts(stmts@), self.pstate());
        }
        self.advance()?;
        Ok(Stmt::Block(stmts))
    }

    /// Parses one statement.
    pub fn parse_stmt(&mut self) -> (r: Result<Stmt, ParseError>)
        requires
            old(self).wf(),
        ensures
            Self::progressed(*old(self), *final(self)),
            r is Ok ==> final(self).measure() < old(self).measure(),
            Self::yields_stmt(r, *final(self), p_stmt(old(self).src(), old(self).pstate())),
        decreases old(self).measure(), 1int,
    {
        proof {
            lemma_p_stmt(self.src(), self.pstate());
        }
        match self.cur_sym() {
            Some(Sym::If) => self.parse_if(),
            Some(Sym::While) => self.parse_while(),
            Some(Sym::Do) => self.parse_do(),
            Some(Sym::For) => self.parse_for(),
            Some(Sym::Break) => {
                self.advance()?;
                Ok(Stmt::Break)
            },
            Some(Sym::Continue) => {
                self.advance()?;
                Ok(Stmt::Continue)
            },
            Some(Sym::Next) => {
                self.advance()?;
                Ok(Stmt::Next)
            },
            Some(Sym::Exit) => {
                self.advance()?;
                let e = self.parse_opt_expr()?;
                Ok(Stmt::Exit(e))
            },
            Some(Sym::Return) => {
                self.advance()?;
                let e = self.parse_opt_expr()?;
                Ok(Stmt::Return(e))
            },
            Some(Sym::Delete) => self.parse_delete(),
            Some(Sym::Print) | Some(Sym::Printf) => self.parse_print(),
            Some(Sym::LBrace) => self.parse_block(),
            _ => {
                let e = self.parse_expr()?;
                Ok(Stmt::Expr(e))
            },
        }
    }

    /// Parses an `if` statement from its keyword on.
    fn parse_if(&mut self) -> (r: Result<Stmt, ParseError>)
        requires
            old(self).wf(),
        ensures
            Self::progressed(*old(self), *final(self)),
            r is Ok ==> final(self).measure() < old(self).measure(),
            Self::yields_stmt(r, *final(self), p_if(old(self).src(), old(self).pstate())),
        decreases old(self).measure(), 0int,
    {
        proof {
            lemma_p_if(self.src(), self.pstate());
        }
        self.advance()?;
        self.expect(Sym::LParen)?;
        let cond = self.parse_expr()?;
        self.expect(Sym::RParen)?;
        self.skip_nls()?;
        let then = self.parse_stmt()?;
        self.skip_terminators()?;
        let els = if self.at_sym(Sym::Else) {
            self.advance()?;
            self.skip_nls()?;
            let e = self.parse_stmt()?;
            Some(Box::new(e))
        } else {
            None
        };
        Ok(Stmt::If(cond, Box::new(then), els))
    }

    /// Parses a `while` statement from its keyword on.
    fn parse_while(&mut self) -> (r: Result<Stmt, ParseError>)
        requires
            old(self).wf(),
        ensures
            Self::progressed(*old(self), *final(self)),
            r is Ok ==> final(self).measure() < old(self).measure(),
            Self::yields_stmt(r, *final(self), p_while(old(self).src(), old(self).pstate())),
        decreases old(self).measure(), 0int,
    {
        proof {
            lemma_p_while(self.src(), self.pstate());
        }
        self.advance()?;
        self.expect(Sym::LParen)?;
        let cond = self.parse_expr()?;
        self.expect(Sym::RParen)?;
        self.skip_nls()?;
        let body = self.parse_stmt()?;
        Ok(Stmt::While(cond, Box::new(body)))
    }

    /// Parses a `do` statement from its keyword on; the token after the body is
    /// taken to be `while`.
    fn parse_do(&mut self) -> (r: Result<Stmt, ParseError>)
        requires
            old(self).wf(),
            old(self).at(Sym::Do),
        ensures
            Self::progressed(*old(self), *final(self)),
            r is Ok ==> final(self).measure() < old(self).measure(),
            Self::yields_stmt(r, *final(self), p_do(old(self).src(), old(self).pstate())),
        decreases old(self).measure(), 0int,
    {
        proof {
            lemma_p_do(self.src(), self.pstate());
        }
        self.advance()?;
        self.skip_nls()?;
        let body = self.parse_stmt()?;
        self.skip_terminators()?;
        self.advance()?;
        self.expect(Sym::LParen)?;
        let cond = self.parse_expr()?;
        self.expect(Sym::RParen)?;
        Ok(Stmt::DoWhile(Box::new(body), cond))
    }

    /// Parses a `for` statement from its keyword on.
    fn parse_for(&mut self) -> (r: Result<Stmt, ParseError>)
        requires
            old(self).wf(),
        ensures
            Self::progressed(*old(self), *final(self)),
            r is Ok ==> final(self).measure() < old(self).measure(),
            Self::yields_stmt(r, *final(self), p_for(old(self).src(), old(self).pstate())),
        decreases old(self).measure(), 0int,
    {
        proof {
            lemma_p_for(self.src(), self.pstate());
        }
        self.advance()?;
        self.expect(Sym::LParen)?;
        if let Some(var) = self.cur_ident() {
            self.advance()?;
            if self.at_sym(Sym::In) {
                self.advance()?;
                if let Some(arr) = self.cur_ident() {
                    self.advance()?;
                    self.expect(Sym::RParen)?;
                    self.skip_nls()?;
                    let body = self.parse_stmt()?;
                    return Ok(Stmt::ForIn(var, arr, Box::new(body)));
                }
            }
            let init_expr = self.finish_expr_from_var(var)?;
            let init = Stmt::Expr(init_expr);
            assert(sstmt(init) == SStmt::Expr(sexpr(init_expr)));
            return self.parse_for_tail(Some(Box::new(init)));
        }
        let init = if !self.at_sym(Sym::Semi) {
            let e = self.parse_expr()?;
            let x = Stmt::Expr(e);
            assert(sstmt(x) == SStmt::Expr(sexpr(e)));
            Some(Box::new(x))
        } else {
            None
        };
        self.parse_for_tail(init)
    }

    /// Parses the rest of a three-part `for` header after its initialisation
    /// `init`, then the body.
    fn parse_for_tail(&mut self, init: Option<Box<Stmt>>) -> (r: Result<Stmt, ParseError>)
        requires
            old(self).wf(),
        ensures
            Self::progressed(*old(self), *final(self)),
            r is Ok ==> final(self).measure() < old(self).measure(),
            Self::yields_stmt(
                r,
                *final(self),
                p_for_tail(old(self).src(), sstmt_box(init), old(self).pstate()),
            ),
        decreases old(self).measure(), 0int,
    {
        proof {
            lemma_p_for_tail(self.src(), sstmt_box(init), self.pstate());
        }
        self.expect(Sym::Semi)?;
        let cond = if !self.at_sym(Sym::Semi) {
            Some(self.parse_expr()?)
        } else {
            None
        };
        self.expect(Sym::Semi)?;
        let post = if !self.at_sym(Sym::RParen) {
            let e = self.parse_expr()?;
            let x = Stmt::Expr(e);
            assert(sstmt(x) == SStmt::Expr(sexpr(e)));
            Some(Box::new(x))
        } else {
            None
        };
        self.expect(Sym::RParen)?;
        self.skip_nls()?;
        let body = self.parse_stmt()?;
        Ok(Stmt::For(init, cond, post, Box::new(body)))
    }

    /// Parses a `delete` statement from its keyword on.
    fn parse_delete(&mut self) -> (r: Result<Stmt, ParseError>)
        requires
            old(self).wf(),
        ensures
            Self::progressed(*old(self), *final(self)),
            r is Ok ==> final(self).measure() < old(self).measure(),
            Self::yields_stmt(r, *final(self), p_delete(old(self).src(), old(self).pstate())),
    {
        proof {
            lemma_p_delete(self.src(), self.pstate());
        }
        let ln = self.current.line;
        self.advance()?;
        if let Some(name) = self.cur_ident() {
            self.advance()?;
            if self.at_sym(Sym::LBrack) {
                self.advance()?;
                let keys = self.parse_list(Sym::RBrack)?;
                return Ok(Stmt::Delete(name, Some(keys)));
            }
            return Ok(Stmt::Delete(name, None));
        }
        Err(ParseError::ExpectedArrayAfterDelete(ln))
    }

    /// Parses a `print` or `printf` statement from its keyword on.
    fn parse_print(&mut self) -> (r: Result<Stmt, ParseError>)
        requires
            old(self).wf(),
            old(self).at(Sym::Print) || old(self).at(Sym::Printf),
        ensures
            Self::progressed(*old(self), *final(self)),
            r is Ok ==> final(self).measure() < old(self).measure(),
            Self::yields_stmt(r, *final(self), p_print(old(self).src(), old(self).pstate())),
    {
        proof {
            lemma_p_print(self.src(), self.pstate());
        }
        let is_printf = self.at_sym(Sym::Printf);
        self.advance()?;
        let has_paren = self.at_sym(Sym::LParen);
        if has_paren {
            self.advance()?;
        }
        let args = self.parse_print_args()?;
        if has_paren && self.at_sym(Sym::RParen) {
            self.advance()?;
        }
        let redirect = self.parse_redirect()?;
        if is_printf {
            Ok(Stmt::Printf(args, redirect))
        } else {
            Ok(Stmt::Print(args, redirect))
        }
    }

    /// Parses the arguments of `print` or `printf`: none where the statement or
    /// the parenthesis ends, else a comma-separated list.
    fn parse_print_args(&mut self) -> (r: Result<Vec<Expr>, ParseError>)
        requires
            old(self).wf(),
        ensures
            Self::progressed(*old(self), *final(self)),
            match p_print_args(old(self).src(), old(self).pstate()) {
                Ok((es, st)) => r matches Ok(v) && sexprs(v@) == es && final(self).pstate() == st,
                Err(err) => r matches Err(x) && x@ == err,
            },
    {
        proof {
            lemma_p_print_args(self.src(), self.pstate());
            lemma_sexprs_empty();
        }
        if !self.is_stmt_end() && !self.at_sym(Sym::RParen) {
            let a0 = self.parse_expr()?;
            let mut first: Vec<Expr> = Vec::new();
            first.push(a0);
            proof {
                lemma_sexprs_push(Seq::<Expr>::empty(), a0);
                assert(first@ == Seq::<Expr>::empty().push(a0));
                assert(sexprs(first@) =~= seq![sexpr(a0)]);
            }
            self.parse_more(first)
        } else {
            Ok(Vec::new())
        }
    }

    /// Parses an expression unless the statement ends here.
    fn parse_opt_expr(&mut self) -> (r: Result<Option<Expr>, ParseError>)
        requires
            old(self).wf(),
        ensures
            Self::progressed(*old(self), *final(self)),
            match p_opt_expr(old(self).src(), old(self).pstate()) {
                Ok((e, st)) => r matches Ok(x) && sexpr_opt(x) == e && final(self).pstate() == st,
                Err(err) => r matches Err(x) && x@ == err,
            },
    {
        proof {
            lemma_p_opt_expr(self.src(), self.pstate());
        }
        if self.is_stmt_end() {
            Ok(None)
        } else {
            let e = self.parse_expr()?;
            Ok(Some(e))
        }
    }

    /// Finishes an expression whose first token, a variable name, has been consumed.
    pub fn finish_expr_from_var(&mut self, var: String) -> (r: Result<Expr, ParseError>)
        requires
            old(self).wf(),
        ensures
            Self::progressed(*old(self), *final(self)),
            Self::yields_expr(r, *final(self), p_finish_var(old(self).src(), var@, old(self).pstate())),
    {
        proof {
            lemma_p_finish_var(self.src(), var@, self.pstate());
        }
        let lhs = Expr::Var(var);
        assert(sexpr(lhs) == SExpr::Var(var@));
        match self.cur_sym() {
            Some(Sym::Eq) => {
                self.advance()?;
                let rhs = self.parse_expr()?;
                Ok(Expr::Assign(Box::new(lhs), Box::new(rhs)))
            },
            Some(Sym::PlusEq) => {
                self.advance()?;
                let rhs = self.parse_expr()?;
                Ok(Expr::CompoundAssign(Op::Add, Box::new(lhs), Box::new(rhs)))
            },
            Some(Sym::MinusEq) => {
                self.advance()?;
                let rhs = self.parse_expr()?;
                Ok(Expr::CompoundAssign(Op::Sub, Box::new(lhs), Box::new(rhs)))
            },
            Some(Sym::StarEq) => {
                self.advance()?;
                let rhs = self.parse_expr()?;
                Ok(Expr::CompoundAssign(Op::Mul, Box::new(lhs), Box::new(rhs)))
            },
            Some(Sym::SlashEq) => {
                self.advance()?;
                let rhs = self.parse_expr()?;
                Ok(Expr::CompoundAssign(Op::Div, Box::new(lhs), Box::new(rhs)))
            },
            Some(Sym::PercentEq) => {
                self.advance()?;
                let rhs = self.parse_expr()?;
                Ok(Expr::CompoundAssign(Op::Mod, Box::new(lhs), Box::new(rhs)))
            },
            Some(Sym::PlusPlus) => {
                self.advance()?;
                Ok(Expr::PostIncDec(Box::new(lhs), Op::Inc))
            },
            Some(Sym::MinusMinus) => {
                self.advance()?;
                Ok(Expr::PostIncDec(Box::new(lhs), Op::Dec))
            },
            _ => Ok(lhs),
        }
    }

    /// Parses an output redirection after `print` or `printf`, if one follows.
    pub fn parse_redirect(&mut self) -> (r: Result<Option<Redirect>, ParseError>)
        requires
            old(self).wf(),
        ensures
            Self::progressed(*old(self), *final(self)),
            match p_redirect(old(self).src(), old(self).pstate()) {
                Ok((red, st)) => r matches Ok(x) && sredirect_opt(x) == red && final(self).pstate()
                    == st,
                Err(err) => r matches Err(x) && x@ == err,
            },
    {
        proof {
            lemma_p_redirect(self.src(), self.pstate());
        }
        match self.cur_sym() {
            Some(Sym::Gt) => {
                self.advance()?;
                let e = self.parse_primary()?;
                Ok(Some(Redirect::File(e)))
            },
            Some(Sym::Append) => {
                self.advance()?;
                let e = self.parse_primary()?;
                Ok(Some(Redirect::Append(e)))
            },
            Some(Sym::Pipe) => {
                self.advance()?;
                let e = self.parse_primary()?;
                Ok(Some(Redirect::Pipe(e)))
            },
            _ => Ok(None),
        }
    }

    /// Parses an expression.
    pub fn parse_expr(&mut self) -> (r: Result<Expr, ParseError>)
        requires
            old(self).wf(),
        ensures
            Self::progressed(*old(self), *final(self)),
            r is Ok ==> final(self).measure() < old(self).measure(),
            Self::yields_expr(r, *final(self), p_expr(old(self).src(), old(self).pstate())),
        decreases old(self).measure(), 14int,
    {
        proof {
            lemma_p_expr(self.src(), self.pstate());
        }
        self.parse_ternary()
    }

    /// Parses a conditional expression or an assignment.
    pub fn parse_ternary(&mut self) -> (r: Result<Expr, ParseError>)
        requires
            old(self).wf(),
        ensures
            Self::progressed(*old(self), *final(self)),
            r is Ok ==> final(self).measure() < old(self).measure(),
            Self::yields_expr(r, *final(self), p_ternary(old(self).src(), old(self).pstate())),
        decreases old(self).measure(), 13int,
    {
        proof {
            lemma_p_ternary(self.src(), self.pstate());
        }
        let lhs = self.parse_or()?;
        if self.at_sym(Sym::Question) {
            self.advance()?;
            let t = self.parse_ternary()?;
            self.expect(Sym::Colon)?;
            let f = self.parse_ternary()?;
            return Ok(Expr::Ternary(Box::new(lhs), Box::new(t), Box::new(f)));
        }
        let op = match self.cur_sym() {
            Some(Sym::Eq) => None,
            Some(Sym::PlusEq) => Some(Op::Add),
            Some(Sym::MinusEq) => Some(Op::Sub),
            Some(Sym::StarEq) => Some(Op::Mul),
            Some(Sym::SlashEq) => Some(Op::Div),
            Some(Sym::PercentEq) => Some(Op::Mod),
            Some(Sym::CaretEq) => Some(Op::Pow),
            _ => {
                return Ok(lhs);
            },
        };
        self.advance()?;
        let rhs = self.parse_ternary()?;
        match op {
            None => Ok(Expr::Assign(Box::new(lhs), Box::new(rhs))),
            Some(o) => Ok(Expr::CompoundAssign(o, Box::new(lhs), Box::new(rhs))),
        }
    }

    pub fn parse_or(&mut self) -> (r: Result<Expr, ParseError>)
        requires
            old(self).wf(),
        ensures
            Self::progressed(*old(self), *final(self)),
            r is Ok ==> final(self).measure() < old(self).measure(),
            Self::yields_expr(r, *final(self), p_or(old(self).src(), old(self).pstate())),
        decreases old(self).measure(), 12int,
    {
        proof {
            lemma_p_or(self.src(), self.pstate());
        }
        let ghost s0 = self.src();
        let ghost st0 = self.pstate();
        let mut lhs = self.parse_and()?;
        while self.at_sym(Sym::Or)
            invariant
                Self::progressed(*old(self), *self),
                self.measure() < old(self).measure(),
                s0 == self.src(),
                st0 == old(self).pstate(),
                p_or(s0, st0) == p_or_rest(s0, sexpr(lhs), self.pstate()),
            decreases self.measure(),
        {
            proof {
                lemma_p_or_rest(s0, sexpr(lhs), self.pstate());
            }
            self.advance()?;
            let rhs = self.parse_and()?;
            lhs = Expr::Binary(Op::Or, Box::new(lhs), Box::new(rhs));
        }
        proof {
            lemma_p_or_rest(s0, sexpr(lhs), self.pstate());
        }
        Ok(lhs)
    }

    pub fn parse_and(&mut self) -> (r: Result<Expr, ParseError>)
        requires
            old(self).wf(),
        ensures
            Self::progressed(*old(self), *final(self)),
            r is Ok ==> final(self).measure() < old(self).measure(),
            Self::yields_expr(r, *final(self), p_and(old(self).src(), old(self).pstate())),
        decreases old(self).measure(), 11int,
    {
        proof {
            lemma_p_and(self.src(), self.pstate());
        }
        let ghost s0 = self.src();
        let ghost st0 = self.pstate();
        let mut lhs = self.parse_match_expr()?;
        while self.at_sym(Sym::And)
            invariant
                Self::progressed(*old(self), *self),
                self.measure() < old(self).measure(),
                s0 == self.src(),
                st0 == old(self).pstate(),
                p_and(s0, st0) == p_and_rest(s0, sexpr(lhs), self.pstate()),
            decreases self.measure(),
        {
            proof {
                lemma_p_and_rest(s0, sexpr(lhs), self.pstate());
            }
            self.advance()?;
            let rhs = self.parse_match_expr()?;
            lhs = Expr::Binary(Op::And, Box::new(lhs), Box::new(rhs));
        }
        proof {
            lemma_p_and_rest(s0, sexpr(lhs), self.pstate());
        }
        Ok(lhs)
    }

    pub fn parse_match_expr(&mut self) -> (r: Result<Expr, ParseError>)
        requires
            old(self).wf(),
        ensures
            Self::progressed(*old(self), *final(self)),
            r is Ok ==> final(self).measure() < old(self).measure(),
            Self::yields_expr(r, *final(self), p_match(old(self).src(), old(self).pstate())),
        decreases old(self).measure(), 10int,
    {
        proof {
            lemma_p_match(self.src(), self.pstate());
        }
        let ghost s0 = self.src();
        let ghost st0 = self.pstate();
        let mut lhs = self.parse_in()?;
        loop
            invariant
                Self::progressed(*old(self), *self),
                self.measure() < old(self).measure(),
                s0 == self.src(),
                st0 == old(self).pstate(),
                p_match(s0, st0) == p_match_rest(s0, sexpr(lhs), self.pstate()),
            ensures
                !self.at(Sym::Tilde) && !self.at(Sym::BangTilde),
            decreases self.measure(),
        {
            proof {
                lemma_p_match_rest(s0, sexpr(lhs), self.pstate());
            }
            if self.at_sym(Sym::Tilde) {
                self.advance()?;
                let rhs = self.parse_in()?;
                lhs = Expr::Match(Box::new(lhs), Box::new(rhs));
            } else if self.at_sym(Sym::BangTilde) {
                self.advance()?;
                let rhs = self.parse_in()?;
                let ghost sl = sexpr(lhs);
                let ghost sr = sexpr(rhs);
                let m = Expr::Match(Box::new(lhs), Box::new(rhs));
                assert(sexpr(m) == SExpr::Match(Box::new(sl), Box::new(sr)));
                lhs = Expr::Unary(Op::Not, Box::new(m));
            } else {
                break;
            }
        }
        proof {
            lemma_p_match_rest(s0, sexpr(lhs), self.pstate());
        }
        Ok(lhs)
    }

    pub fn parse_in(&mut self) -> (r: Result<Expr, ParseError>)
        requires
            old(self).wf(),
        ensures
            Self::progressed(*old(self), *final(self)),
            r is Ok ==> final(self).measure() < old(self).measure(),
            Self::yields_expr(r, *final(self), p_in(old(self).src(), old(self).pstate())),
        decreases old(self).measure(), 9int,
    {
        proof {
            lemma_p_in(self.src(), self.pstate());
        }
        let ghost s0 = self.src();
        let ghost st0 = self.pstate();
        let mut lhs = self.parse_cmp()?;
        while self.at_sym(Sym::In)
            invariant
                Self::progressed(*old(self), *self),
                self.measure() < old(self).measure(),
                s0 == self.src(),
                st0 == old(self).pstate(),
                p_in(s0, st0) == p_in_rest(s0, sexpr(lhs), self.pstate()),
            decreases self.measure(),
        {
            proof {
                lemma_p_in_rest(s0, sexpr(lhs), self.pstate());
            }
            self.advance()?;
            if let Some(name) = self.cur_ident() {
                self.advance()?;
                lhs = Expr::InArray(Box::new(lhs), name);
            } else {
                return Err(ParseError::ExpectedArrayAfterIn(self.current.line));
            }
        }
        proof {
            lemma_p_in_rest(s0, sexpr(lhs), self.pstate());
        }
        Ok(lhs)
    }

    pub fn parse_cmp(&mut self) -> (r: Result<Expr, ParseError>)
        requires
            old(self).wf(),
        ensures
            Self::progressed(*old(self), *final(self)),
            r is Ok ==> final(self).measure() < old(self).measure(),
            Self::yields_expr(r, *final(self), p_cmp(old(self).src(), old(self).pstate())),
        decreases old(self).measure(), 8int,
    {
        proof {
            lemma_p_cmp(self.src(), self.pstate());
        }
        let ghost s0 = self.src();
        let ghost st0 = self.pstate();
        let mut lhs = self.parse_concat()?;
        loop
            invariant
                Self::progressed(*old(self), *self),
                self.measure() < old(self).measure(),
                s0 == self.src(),
                st0 == old(self).pstate(),
                p_cmp(s0, st0) == p_cmp_rest(s0, sexpr(lhs), self.pstate()),
            ensures
                cmp_op(self.pstate()) is None,
            decreases self.measure(),
        {
            proof {
                lemma_p_cmp_rest(s0, sexpr(lhs), self.pstate());
            }
            let op = match self.cur_sym() {
                Some(Sym::Lt) => Op::Lt,
                Some(Sym::LtEq) => Op::Le,
                Some(Sym::Gt) => Op::Gt,
                Some(Sym::GtEq) => Op::Ge,
                Some(Sym::EqEq) => Op::EqEq,
                Some(Sym::BangEq) => Op::Ne,
                _ => {
                    break;
                },
            };
            self.advance()?;
            let rhs = self.parse_concat()?;
            lhs = Expr::Binary(op, Box::new(lhs), Box::new(rhs));
        }
        proof {
            lemma_p_cmp_rest(s0, sexpr(lhs), self.pstate());
        }
        Ok(lhs)
    }

    /// Whether the current token ends a concatenation.
    fn ends_concat(&self) -> (r: bool)
        ensures
            r == concat_stops(self.pstate()),
    {
        if self.is_stmt_end() {
            return true;
        }
        match self.cur_sym() {
            Some(Sym::Comma) | Some(Sym::RParen) | Some(Sym::RBrack) | Some(Sym::Pipe) | Some(
                Sym::Gt,
            ) | Some(Sym::Append) | Some(Sym::Question) | Some(Sym::Colon) | Some(Sym::Eq) | Some(
                Sym::PlusEq,
            ) | Some(Sym::MinusEq) | Some(Sym::StarEq) | Some(Sym::SlashEq) | Some(
                Sym::PercentEq,
            ) | Some(Sym::CaretEq) | Some(Sym::And) | Some(Sym::Or) | Some(Sym::Tilde) | Some(
                Sym::BangTilde,
            ) | Some(Sym::In) | Some(Sym::Lt) | Some(Sym::LtEq) | Some(Sym::GtEq) | Some(
                Sym::EqEq,
            ) | Some(Sym::BangEq) | Some(Sym::LBrace) | Some(Sym::Eof) => true,
            _ => false,
        }
    }

    pub fn parse_concat(&mut self) -> (r: Result<Expr, ParseError>)
        requires
            old(self).wf(),
        ensures
            Self::progressed(*old(self), *final(self)),
            r is Ok ==> final(self).measure() < old(self).measure(),
            Self::yields_expr(r, *final(self), p_concat(old(self).src(), old(self).pstate())),
        decreases old(self).measure(), 7int,
    {
        proof {
            lemma_p_concat(self.src(), self.pstate());
        }
        let ghost s0 = self.src();
        let ghost st0 = self.pstate();
        let first = self.parse_add()?;
        let ghost g0 = seq![sexpr(first)];
        let ghost st1 = self.pstate();
        let mut parts: Vec<Expr> = Vec::new();
        parts.push(first);
        proof {
            lemma_sexprs_empty();
            lemma_sexprs_push(Seq::<Expr>::empty(), first);
            assert(parts@ == Seq::<Expr>::empty().push(first));
        }
        loop
            invariant
                Self::progressed(*old(self), *self),
                self.measure() < old(self).measure(),
                s0 == self.src(),
                st0 == old(self).pstate(),
                parts.len() >= 1,
                p_concat(s0, st0) == match p_concat_rest(s0, g0, st1) {
                    Err(e) => Err(e),
                    Ok((ps, st2)) => Ok(
                        (
                            if ps.len() == 1 {
                                ps[0]
                            } else {
                                SExpr::Concat(ps)
                            },
                            st2,
                        ),
                    ),
                },
                p_concat_rest(s0, g0, st1) == p_concat_rest(s0, sexprs(parts@), self.pstate()),
            ensures
                concat_stops(self.pstate()),
            decreases self.measure(),
        {
            proof {
                lemma_p_concat_rest(s0, sexprs(parts@), self.pstate());
            }
            if self.ends_concat() {
                break;
            }
            let ghost before = parts@;
            let e = self.parse_add()?;
            parts.push(e);
            proof {
                lemma_sexprs_push(before, e);
            }
        }
        proof {
            lemma_p_concat_rest(s0, sexprs(parts@), self.pstate());
        }
        if parts.len() == 1 {
            proof {
                lemma_sexprs_empty();
                lemma_sexprs_push(Seq::<Expr>::empty(), parts@[0]);
                assert(parts@ == Seq::<Expr>::empty().push(parts@[0]));
            }
            Ok(parts.remove(0))
        } else {
            proof {
                lemma_sexprs_len(parts@);
            }
            Ok(Expr::Concat(parts))
        }
    }

    pub fn parse_add(&mut self) -> (r: Result<Expr, ParseError>)
        requires
            old(self).wf(),
        ensures
            Self::progressed(*old(self), *final(self)),
            r is Ok ==> final(self).measure() < old(self).measure(),
            Self::yields_expr(r, *final(self), p_add(old(self).src(), old(self).pstate())),
        decreases old(self).measure(), 6int,
    {
        proof {
            lemma_p_add(self.src(), self.pstate());
        }
        let ghost s0 = self.src();
        let ghost st0 = self.pstate();
        let mut lhs = self.parse_mul()?;
        loop
            invariant
                Self::progressed(*old(self), *self),
                self.measure() < old(self).measure(),
                s0 == self.src(),
                st0 == old(self).pstate(),
                p_add(s0, st0) == p_add_rest(s0, sexpr(lhs), self.pstate()),
            ensures
                add_op(self.pstate()) is None,
            decreases self.measure(),
        {
            proof {
                lemma_p_add_rest(s0, sexpr(lhs), self.pstate());
            }
            let op = match self.cur_sym() {
                Some(Sym::Plus) => Op::Add,
                Some(Sym::Minus) => Op::Sub,
                _ => {
                    break;
                },
            };
            self.advance()?;
            let rhs = self.parse_mul()?;
            lhs = Expr::Binary(op, Box::new(lhs), Box::new(rhs));
        }
        proof {
            lemma_p_add_rest(s0, sexpr(lhs), self.pstate());
        }
        Ok(lhs)
    }

    pub fn parse_mul(&mut self) -> (r: Result<Expr, ParseError>)
        requires
            old(self).wf(),
        ensures
            Self::progressed(*old(self), *final(self)),
            r is Ok ==> final(self).measure() < old(self).measure(),
            Self::yields_expr(r, *final(self), p_mul(old(self).src(), old(self).pstate())),
        decreases old(self).measure(), 5int,
    {
        proof {
            lemma_p_mul(self.src(), self.pstate());
        }
        let ghost s0 = self.src();
        let ghost st0 = self.pstate();
        let mut lhs = self.parse_pow()?;
        loop
            invariant
                Self::progressed(*old(self), *self),
                self.measure() < old(self).measure(),
                s0 == self.src(),
                st0 == old(self).pstate(),
                p_mul(s0, st0) == p_mul_rest(s0, sexpr(lhs), self.pstate()),
            ensures
                mul_op(self.pstate()) is None,
            decreases self.measure(),
        {
            proof {
                lemma_p_mul_rest(s0, sexpr(lhs), self.pstate());
            }
            let op = match self.cur_sym() {
                Some(Sym::Star) => Op::Mul,
                Some(Sym::Slash) => Op::Div,
                Some(Sym::Percent) => Op::Mod,
                _ => {
                    break;
                },
            };
            self.advance()?;
            let rhs = self.parse_pow()?;
            lhs = Expr::Binary(op, Box::new(lhs), Box::new(rhs));
        }
        proof {
            lemma_p_mul_rest(s0, sexpr(lhs), self.pstate());
        }
        Ok(lhs)
    }

    pub fn parse_pow(&mut self) -> (r: Result<Expr, ParseError>)
        requires
            old(self).wf(),
        ensures
            Self::progressed(*old(self), *final(self)),
            r is Ok ==> final(self).measure() < old(self).measure(),
            Self::yields_expr(r, *final(self), p_pow(old(self).src(), old(self).pstate())),
        decreases old(self).measure(), 4int,
    {
        proof {
            lemma_p_pow(self.src(), self.pstate());
        }
        let lhs = self.parse_unary()?;
        if self.at_sym(Sym::Caret) {
            self.advance()?;
            let rhs = self.parse_pow()?;
            return Ok(Expr::Binary(Op::Pow, Box::new(lhs), Box::new(rhs)));
        }
        Ok(lhs)
    }

    pub fn parse_unary(&mut self) -> (r: Result<Expr, ParseError>)
        requires
            old(self).wf(),
        ensures
            Self::progressed(*old(self), *final(self)),
            r is Ok ==> final(self).measure() < old(self).measure(),
            Self::yields_expr(r, *final(self), p_unary(old(self).src(), old(self).pstate())),
        decreases old(self).measure(), 3int,
    {
        proof {
            lemma_p_unary(self.src(), self.pstate());
        }
        match self.cur_sym() {
            Some(Sym::Bang) => {
                self.advance()?;
                let e = self.parse_unary()?;
                Ok(Expr::Unary(Op::Not, Box::new(e)))
            },
            Some(Sym::Minus) => {
                self.advance()?;
                let e = self.parse_unary()?;
                Ok(Expr::Unary(Op::Neg, Box::new(e)))
            },
            Some(Sym::Plus) => {
                self.advance()?;
                let e = self.parse_unary()?;
                Ok(Expr::Unary(Op::Plus, Box::new(e)))
            },
            Some(Sym::PlusPlus) => {
                self.advance()?;
                let e = self.parse_unary()?;
                Ok(Expr::PreIncDec(Op::Inc, Box::new(e)))
            },
            Some(Sym::MinusMinus) => {
                self.advance()?;
                let e = self.parse_unary()?;
                Ok(Expr::PreIncDec(Op::Dec, Box::new(e)))
            },
            _ => self.parse_postfix(),
        }
    }

    pub fn parse_postfix(&mut self) -> (r: Result<Expr, ParseError>)
        requires
            old(self).wf(),
        ensures
            Self::progressed(*old(self), *final(self)),
            r is Ok ==> final(self).measure() < old(self).measure(),
            Self::yields_expr(r, *final(self), p_postfix(old(self).src(), old(self).pstate())),
        decreases old(self).measure(), 2int,
    {
        proof {
            lemma_p_postfix(self.src(), self.pstate());
        }
        let e = self.parse_primary()?;
        match self.cur_sym() {
            Some(Sym::PlusPlus) => {
                self.advance()?;
                Ok(Expr::PostIncDec(Box::new(e), Op::Inc))
            },
            Some(Sym::MinusMinus) => {
                self.advance()?;
                Ok(Expr::PostIncDec(Box::new(e), Op::Dec))
            },
            _ => Ok(e),
        }
    }

    /// Parses the rest of a comma-separated list of expressions after `acc`.
    pub fn parse_more(&mut self, first: Vec<Expr>) -> (r: Result<Vec<Expr>, ParseError>)
        requires
            old(self).wf(),
        ensures
            Self::progressed(*old(self), *final(self)),
            match p_more(old(self).src(), sexprs(first@), old(self).pstate()) {
                Ok((es, st)) => r matches Ok(v) && sexprs(v@) == es && final(self).pstate() == st,
                Err(err) => r matches Err(x) && x@ == err,
            },
        decreases old(self).measure(), 0int,
    {
        let ghost s0 = self.src();
        let ghost st0 = self.pstate();
        let ghost a0 = first@;
        let mut acc = first;
        while self.at_sym(Sym::Comma)
            invariant
                Self::progressed(*old(self), *self),
                a0 == first@,
                s0 == self.src(),
                st0 == old(self).pstate(),
                p_more(s0, sexprs(a0), st0) == p_more(s0, sexprs(acc@), self.pstate()),
            decreases self.measure(),
        {
            proof {
                lemma_p_more(s0, sexprs(acc@), self.pstate());
            }
            let ghost st = self.pstate();
            let ghost before = acc@;
            self.advance()?;
            let e = self.parse_expr()?;
            acc.push(e);
            proof {
                lemma_sexprs_push(before, e);
            }
        }
        proof {
            lemma_p_more(s0, sexprs(acc@), self.pstate());
        }
        Ok(acc)
    }

    /// Parses a non-empty comma-separated list of expressions and the token that
    /// closes it.
    pub fn parse_list(&mut self, closing: Sym) -> (r: Result<Vec<Expr>, ParseError>)
        requires
            old(self).wf(),
        ensures
            Self::progressed(*old(self), *final(self)),
            r is Ok ==> final(self).measure() < old(self).measure(),
            match p_list(old(self).src(), old(self).pstate(), closing) {
                Ok((es, st)) => r matches Ok(v) && sexprs(v@) == es && final(self).pstate() == st,
                Err(err) => r matches Err(x) && x@ == err,
            },
        decreases old(self).measure(), 15int,
    {
        proof {
            lemma_p_list(self.src(), self.pstate(), closing);
        }
        let e0 = self.parse_expr()?;
        let mut first: Vec<Expr> = Vec::new();
        first.push(e0);
        proof {
            lemma_sexprs_empty();
            lemma_sexprs_push(Seq::<Expr>::empty(), e0);
            assert(first@ == Seq::<Expr>::empty().push(e0));
        }
        let es = self.parse_more(first)?;
        self.expect(closing)?;
        Ok(es)
    }

    /// Parses a primary expression: a literal, field, variable, array element, call,
    /// parenthesised expression, negation, regular expression or `getline`.
    pub fn parse_primary(&mut self) -> (r: Result<Expr, ParseError>)
        requires
            old(self).wf(),
        ensures
            Self::progressed(*old(self), *final(self)),
            r is Ok ==> final(self).measure() < old(self).measure(),
            Self::yields_expr(r, *final(self), p_primary(old(self).src(), old(self).pstate())),
        decreases old(self).measure(), 1int,
    {
        proof {
            lemma_p_primary(self.src(), self.pstate());
        }
        let ln = self.current.line;
        match &self.current.kind {
            TK::Num(n) => {
                let v = n.clone();
                self.advance()?;
                return Ok(Expr::Num(v));
            },
            TK::Str(n) => {
                let v = n.clone();
                self.advance()?;
                return Ok(Expr::Str(v));
            },
            _ => {},
        }
        if let Some(name) = self.cur_ident() {
            return self.parse_name_primary(name);
        }
        match self.cur_sym() {
            Some(k) => self.parse_sym_primary(k),
            None => Err(ParseError::UnexpectedToken(clone_tk(&self.current.kind), ln)),
        }
    }

    /// Parses a primary expression that starts with the name `name`: an array
    /// element, a call, or a variable.
    fn parse_name_primary(&mut self, name: String) -> (r: Result<Expr, ParseError>)
        requires
            old(self).wf(),
            old(self).current.kind@ == SpecTK::Ident(name@),
        ensures
            Self::progressed(*old(self), *final(self)),
            r is Ok ==> final(self).measure() < old(self).measure(),
            Self::yields_expr(r, *final(self), p_primary(old(self).src(), old(self).pstate())),
        decreases old(self).measure(), 0int,
    {
        let ghost s0 = self.src();
        let ghost st0 = self.pstate();
        proof {
            lemma_p_primary(s0, st0);
        }
        self.advance()?;
        proof {
            lemma_p_name_tail(s0, name@, self.pstate(), st0);
        }
        if self.at_sym(Sym::LBrack) {
            self.advance()?;
            let keys = self.parse_list(Sym::RBrack)?;
            return Ok(Expr::Array(name, keys));
        }
        if self.at_sym(Sym::LParen) {
            self.advance()?;
            if self.at_sym(Sym::RParen) {
                self.advance()?;
                proof {
                    lemma_sexprs_empty();
                }
                return Ok(Expr::Call(name, Vec::new()));
            }
            let args = self.parse_list(Sym::RParen)?;
            return Ok(Expr::Call(name, args));
        }
        Ok(Expr::Var(name))
    }

    /// Parses a primary expression that starts with the symbol `k`: a field, a
    /// parenthesised expression, a negation, a regular expression or `getline`.
    fn parse_sym_primary(&mut self, k: Sym) -> (r: Result<Expr, ParseError>)
        requires
            old(self).wf(),
            old(self).current.kind@ == SpecTK::Sym(k),
        ensures
            Self::progressed(*old(self), *final(self)),
            r is Ok ==> final(self).measure() < old(self).measure(),
            Self::yields_expr(r, *final(self), p_primary(old(self).src(), old(self).pstate())),
        decreases old(self).measure(), 0int,
    {
        let ghost s0 = self.src();
        let ghost st0 = self.pstate();
        proof {
            lemma_p_primary(s0, st0);
            lemma_p_sym_primary(s0, k, st0);
        }
        let ln = self.current.line;
        match k {
            Sym::Dollar => {
                self.advance()?;
                let e = self.parse_unary()?;
                Ok(Expr::Field(Box::new(e)))
            },
            Sym::LParen => {
                self.advance()?;
                let e = self.parse_expr()?;
                self.expect(Sym::RParen)?;
                Ok(e)
            },
            Sym::Bang => {
                self.advance()?;
                let e = self.parse_primary()?;
                Ok(Expr::Unary(Op::Not, Box::new(e)))
            },
            Sym::Slash => {
                // The body of the literal starts right after the slash, where the
                // lexer stands unless a token was already read ahead.
                if self.peeked.is_some() {
                    self.advance()?;
                }
                proof {
                    lemma_p_regex_at(self.src(), self.lexer.pos as int);
                }
                let tok = match self.lexer.lex_regex() {
                    Ok(t) => t,
                    Err(e) => {
                        return Err(ParseError::Lex(e));
                    },
                };
                let next = match self.lexer.next_token() {
                    Ok(t) => t,
                    Err(e) => {
                        return Err(ParseError::Lex(e));
                    },
                };
                self.current = next;
                match tok.kind {
                    TK::Regex(p) => Ok(Expr::Regex(p)),
                    _ => Err(ParseError::ExpectedRegex(ln)),
                }
            },
            Sym::Getline => {
                self.advance()?;
                if let Some(v) = self.cur_ident() {
                    self.advance()?;
                    let var = Expr::Var(v);
                    assert(sexpr(var) == SExpr::Var(v@));
                    Ok(Expr::Getline(Some(Box::new(var))))
                } else {
                    Ok(Expr::Getline(None))
                }
            },
            _ => Err(ParseError::UnexpectedToken(clone_tk(&self.current.kind), ln)),
        }
    }
}

} // verus!
