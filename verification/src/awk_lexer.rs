use vstd::prelude::*;

use crate::text::{
    chars_of, is_alphabetic, is_alphanumeric, is_ascii_digit, string_of, unicode_alphabetic,
    unicode_alphanumeric,
};

verus! {

// ---------------------------------------------------------------------------
// Tokens
// ---------------------------------------------------------------------------

/// The awk tokens that carry no text: operators, punctuation, keywords and end of input.
#[derive(Clone, Copy, PartialEq, Eq, Structural, Debug)]
pub enum Sym {
    Plus, Minus, Star, Slash, Percent, Caret,
    PlusEq, MinusEq, StarEq, SlashEq, PercentEq, CaretEq,
    PlusPlus, MinusMinus,
    Eq, EqEq, BangEq, Lt, LtEq, Gt, GtEq,
    And, Or, Bang,
    Tilde, BangTilde,
    Comma, Semi, Colon, Question,
    LBrace, RBrace, LParen, RParen, LBrack, RBrack,
    Dollar, Newline, Pipe, Append, Eof,
    BEGIN, END, If, Else, While, Do, For, In,
    Break, Continue, Next, Exit, Print, Printf,
    Delete, Return, Function, Getline,
}

/// A token kind. A number keeps the text of its literal; what it denotes as a
/// floating-point value is left to the evaluator.
#[derive(Clone, Debug)]
pub enum TK {
    Num(String),
    Str(String),
    Ident(String),
    Regex(String),
    Sym(Sym),
}

/// The mathematical form of a token kind.
pub enum SpecTK {
    Num(Seq<char>),
    Str(Seq<char>),
    Ident(Seq<char>),
    Regex(Seq<char>),
    Sym(Sym),
}

impl View for TK {
    type V = SpecTK;

    open spec fn view(&self) -> SpecTK {
        match self {
            TK::Num(s) => SpecTK::Num(s@),
            TK::Str(s) => SpecTK::Str(s@),
            TK::Ident(s) => SpecTK::Ident(s@),
            TK::Regex(s) => SpecTK::Regex(s@),
            TK::Sym(k) => SpecTK::Sym(*k),
        }
    }
}

#[derive(Clone, Debug)]
pub struct Token {
    pub kind: TK,
    pub line: usize,
}

/// Why a token could not be read.
#[derive(Clone, Copy, PartialEq, Eq, Structural, Debug)]
pub enum LexErrKind {
    UnterminatedString,
    UnexpectedAmpersand,
    UnexpectedChar(char),
    UnterminatedRegex,
}

#[derive(Clone, Copy, Debug)]
pub struct LexError {
    pub kind: LexErrKind,
    pub line: usize,
}

pub open spec fn is_sym(k: SpecTK, s: Sym) -> bool {
    k matches SpecTK::Sym(x) && x == s
}

/// Whether a token kind is the given symbol.
pub fn tk_is(k: &TK, s: Sym) -> (r: bool)
    ensures
        r == is_sym(k@, s),
{
    match k {
        TK::Sym(x) => *x == s,
        _ => false,
    }
}

// ---------------------------------------------------------------------------
// The lexical grammar
// ---------------------------------------------------------------------------

/// The number of line feeds among the first `p` characters of `s`.
pub open spec fn newlines_before(s: Seq<char>, p: int) -> nat
    decreases p,
{
    if p <= 0 {
        0
    } else if p > s.len() {
        newlines_before(s, s.len() as int)
    } else {
        newlines_before(s, p - 1) + if s[p - 1] == '\n' {
            1nat
        } else {
            0nat
        }
    }
}

/// The end of a comment: the next line feed, or the end of the input.
pub open spec fn comment_end(s: Seq<char>, p: int) -> int
    decreases s.len() - p,
{
    if 0 <= p < s.len() && s[p] != '\n' {
        comment_end(s, p + 1)
    } else {
        p
    }
}

/// The first position at or after `p` that is not a blank (space, tab, carriage
/// return) and not inside a `#` comment.
pub open spec fn ws_end(s: Seq<char>, p: int) -> int
    decreases s.len() - p,
    via ws_end_decreases
{
    if 0 <= p < s.len() && s[p] == '#' {
        ws_end(s, comment_end(s, p + 1))
    } else if 0 <= p < s.len() && (s[p] == ' ' || s[p] == '\t' || s[p] == '\r') {
        ws_end(s, p + 1)
    } else {
        p
    }
}

/// The end of the run of ASCII digits starting at `p`.
pub open spec fn digits_end(s: Seq<char>, p: int) -> int
    decreases s.len() - p,
{
    if 0 <= p < s.len() && is_ascii_digit(s[p]) {
        digits_end(s, p + 1)
    } else {
        p
    }
}

/// The end of the run of alphanumeric characters and underscores starting at `p`.
pub open spec fn ident_end(s: Seq<char>, p: int) -> int
    decreases s.len() - p,
{
    if 0 <= p < s.len() && (unicode_alphanumeric(s[p]) || s[p] == '_') {
        ident_end(s, p + 1)
    } else {
        p
    }
}

pub open spec fn char_at_is(s: Seq<char>, p: int, c: char) -> bool {
    0 <= p < s.len() && s[p] == c
}

/// The end of a number literal starting at `p`: digits, then optionally a point and
/// digits, then optionally `e` or `E`, an optional sign, and digits.
pub open spec fn number_end(s: Seq<char>, p: int) -> int {
    let a = digits_end(s, p);
    let b = if char_at_is(s, a, '.') {
        digits_end(s, a + 1)
    } else {
        a
    };
    if char_at_is(s, b, 'e') || char_at_is(s, b, 'E') {
        let c = if char_at_is(s, b + 1, '+') || char_at_is(s, b + 1, '-') {
            b + 2
        } else {
            b + 1
        };
        digits_end(s, c)
    } else {
        b
    }
}

/// What an escape `\c` inside a string literal stands for.
pub open spec fn escape(c: char) -> Seq<char> {
    if c == 'n' {
        seq!['\n']
    } else if c == 't' {
        seq!['\t']
    } else if c == 'r' {
        seq!['\r']
    } else if c == '\\' {
        seq!['\\']
    } else if c == '"' {
        seq!['"']
    } else if c == '/' {
        seq!['/']
    } else {
        seq!['\\', c]
    }
}

/// The contents and end of a string literal whose body starts at `p` (after the
/// opening quote), or `None` when a line feed or the end of input comes first.
pub open spec fn string_lit(s: Seq<char>, p: int) -> Option<(Seq<char>, int)>
    decreases s.len() - p,
{
    if p < 0 || p >= s.len() || s[p] == '\n' {
        None
    } else if s[p] == '"' {
        Some((Seq::empty(), p + 1))
    } else if s[p] == '\\' {
        if p + 1 >= s.len() {
            None
        } else {
            match string_lit(s, p + 2) {
                Some((t, e)) => Some((escape(s[p + 1]) + t, e)),
                None => None,
            }
        }
    } else {
        match string_lit(s, p + 1) {
            Some((t, e)) => Some((seq![s[p]] + t, e)),
            None => None,
        }
    }
}

/// The contents and end of a regular expression literal whose body starts at `p`
/// (after the opening slash); an escape keeps its backslash.
pub open spec fn regex_lit(s: Seq<char>, p: int) -> Option<(Seq<char>, int)>
    decreases s.len() - p,
{
    if p < 0 || p >= s.len() || s[p] == '\n' {
        None
    } else if s[p] == '/' {
        Some((Seq::empty(), p + 1))
    } else if s[p] == '\\' {
        if p + 1 >= s.len() {
            None
        } else {
            match regex_lit(s, p + 2) {
                Some((t, e)) => Some((seq!['\\', s[p + 1]] + t, e)),
                None => None,
            }
        }
    } else {
        match regex_lit(s, p + 1) {
            Some((t, e)) => Some((seq![s[p]] + t, e)),
            None => None,
        }
    }
}

/// The keyword a word spells, if any.
pub open spec fn keyword(w: Seq<char>) -> Option<Sym> {
    if w == "BEGIN"@ {
        Some(Sym::BEGIN)
    } else if w == "END"@ {
        Some(Sym::END)
    } else if w == "if"@ {
        Some(Sym::If)
    } else if w == "else"@ {
        Some(Sym::Else)
    } else if w == "while"@ {
        Some(Sym::While)
    } else if w == "do"@ {
        Some(Sym::Do)
    } else if w == "for"@ {
        Some(Sym::For)
    } else if w == "in"@ {
        Some(Sym::In)
    } else if w == "break"@ {
        Some(Sym::Break)
    } else if w == "continue"@ {
        Some(Sym::Continue)
    } else if w == "next"@ {
        Some(Sym::Next)
    } else if w == "exit"@ {
        Some(Sym::Exit)
    } else if w == "print"@ {
        Some(Sym::Print)
    } else if w == "printf"@ {
        Some(Sym::Printf)
    } else if w == "delete"@ {
        Some(Sym::Delete)
    } else if w == "return"@ {
        Some(Sym::Return)
    } else if w == "function"@ {
        Some(Sym::Function)
    } else if w == "getline"@ {
        Some(Sym::Getline)
    } else {
        None
    }
}

/// The outcome of reading one token: the token with the positions where it starts
/// and ends, or the reason for failing with the position where the token started.
pub enum Lexed {
    Tok(SpecTK, int, int),
    Fail(LexErrKind, int),
}

/// An operator or punctuation token starting at `q`, `n` being the position after it.
pub open spec fn operator(s: Seq<char>, q: int) -> Lexed {
    let c = s[q];
    let n = q + 1;
    if c == '+' {
        if char_at_is(s, n, '+') {
            Lexed::Tok(SpecTK::Sym(Sym::PlusPlus), q, n + 1)
        } else if char_at_is(s, n, '=') {
            Lexed::Tok(SpecTK::Sym(Sym::PlusEq), q, n + 1)
        } else {
            Lexed::Tok(SpecTK::Sym(Sym::Plus), q, n)
        }
    } else if c == '-' {
        if char_at_is(s, n, '-') {
            Lexed::Tok(SpecTK::Sym(Sym::MinusMinus), q, n + 1)
        } else if char_at_is(s, n, '=') {
            Lexed::Tok(SpecTK::Sym(Sym::MinusEq), q, n + 1)
        } else {
            Lexed::Tok(SpecTK::Sym(Sym::Minus), q, n)
        }
    } else if c == '*' {
        if char_at_is(s, n, '=') {
            Lexed::Tok(SpecTK::Sym(Sym::StarEq), q, n + 1)
        } else {
            Lexed::Tok(SpecTK::Sym(Sym::Star), q, n)
        }
    } else if c == '/' {
        if char_at_is(s, n, '=') {
            Lexed::Tok(SpecTK::Sym(Sym::SlashEq), q, n + 1)
        } else {
            Lexed::Tok(SpecTK::Sym(Sym::Slash), q, n)
        }
    } else if c == '%' {
        if char_at_is(s, n, '=') {
            Lexed::Tok(SpecTK::Sym(Sym::PercentEq), q, n + 1)
        } else {
            Lexed::Tok(SpecTK::Sym(Sym::Percent), q, n)
        }
    } else if c == '^' {
        if char_at_is(s, n, '=') {
            Lexed::Tok(SpecTK::Sym(Sym::CaretEq), q, n + 1)
        } else {
            Lexed::Tok(SpecTK::Sym(Sym::Caret), q, n)
        }
    } else if c == '=' {
        if char_at_is(s, n, '=') {
            Lexed::Tok(SpecTK::Sym(Sym::EqEq), q, n + 1)
        } else {
            Lexed::Tok(SpecTK::Sym(Sym::Eq), q, n)
        }
    } else if c == '!' {
        if char_at_is(s, n, '=') {
            Lexed::Tok(SpecTK::Sym(Sym::BangEq), q, n + 1)
        } else if char_at_is(s, n, '~') {
            Lexed::Tok(SpecTK::Sym(Sym::BangTilde), q, n + 1)
        } else {
            Lexed::Tok(SpecTK::Sym(Sym::Bang), q, n)
        }
    } else if c == '<' {
        if char_at_is(s, n, '=') {
            Lexed::Tok(SpecTK::Sym(Sym::LtEq), q, n + 1)
        } else {
            Lexed::Tok(SpecTK::Sym(Sym::Lt), q, n)
        }
    } else if c == '>' {
        if char_at_is(s, n, '>') {
            Lexed::Tok(SpecTK::Sym(Sym::Append), q, n + 1)
        } else if char_at_is(s, n, '=') {
            Lexed::Tok(SpecTK::Sym(Sym::GtEq), q, n + 1)
        } else {
            Lexed::Tok(SpecTK::Sym(Sym::Gt), q, n)
        }
    } else if c == '&' {
        if char_at_is(s, n, '&') {
            Lexed::Tok(SpecTK::Sym(Sym::And), q, n + 1)
        } else {
            Lexed::Fail(LexErrKind::UnexpectedAmpersand, q)
        }
    } else if c == '|' {
        if char_at_is(s, n, '|') {
            Lexed::Tok(SpecTK::Sym(Sym::Or), q, n + 1)
        } else {
            Lexed::Tok(SpecTK::Sym(Sym::Pipe), q, n)
        }
    } else if c == '~' {
        Lexed::Tok(SpecTK::Sym(Sym::Tilde), q, n)
    } else if c == ',' {
        Lexed::Tok(SpecTK::Sym(Sym::Comma), q, n)
    } else if c == ';' {
        Lexed::Tok(SpecTK::Sym(Sym::Semi), q, n)
    } else if c == ':' {
        Lexed::Tok(SpecTK::Sym(Sym::Colon), q, n)
    } else if c == '?' {
        Lexed::Tok(SpecTK::Sym(Sym::Question), q, n)
    } else if c == '{' {
        Lexed::Tok(SpecTK::Sym(Sym::LBrace), q, n)
    } else if c == '}' {
        Lexed::Tok(SpecTK::Sym(Sym::RBrace), q, n)
    } else if c == '(' {
        Lexed::Tok(SpecTK::Sym(Sym::LParen), q, n)
    } else if c == ')' {
        Lexed::Tok(SpecTK::Sym(Sym::RParen), q, n)
    } else if c == '[' {
        Lexed::Tok(SpecTK::Sym(Sym::LBrack), q, n)
    } else if c == ']' {
        Lexed::Tok(SpecTK::Sym(Sym::RBrack), q, n)
    } else if c == '$' {
        Lexed::Tok(SpecTK::Sym(Sym::Dollar), q, n)
    } else {
        Lexed::Fail(LexErrKind::UnexpectedChar(c), q)
    }
}

/// The token that starts at or after `p`: blanks and comments are skipped, a
/// backslash before a line feed joins two lines, and otherwise the longest token that
/// fits is read.
pub open spec fn lex(s: Seq<char>, p: int) -> Lexed
    decreases s.len() - p,
    via lex_decreases
{
    let q = ws_end(s, p);
    if q < 0 || q >= s.len() {
        Lexed::Tok(SpecTK::Sym(Sym::Eof), q, q)
    } else {
        let c = s[q];
        if c == '\n' {
            Lexed::Tok(SpecTK::Sym(Sym::Newline), q, q + 1)
        } else if c == '"' {
            match string_lit(s, q + 1) {
                Some((t, e)) => Lexed::Tok(SpecTK::Str(t), q, e),
                None => Lexed::Fail(LexErrKind::UnterminatedString, q),
            }
        } else if is_ascii_digit(c) || (c == '.' && q + 1 < s.len() && is_ascii_digit(s[q + 1])) {
            Lexed::Tok(SpecTK::Num(s.subrange(q, number_end(s, q))), q, number_end(s, q))
        } else if unicode_alphabetic(c) || c == '_' {
            let e = ident_end(s, q);
            let w = s.subrange(q, e);
            match keyword(w) {
                Some(k) => Lexed::Tok(SpecTK::Sym(k), q, e),
                None => Lexed::Tok(SpecTK::Ident(w), q, e),
            }
        } else if c == '\\' && char_at_is(s, q + 1, '\n') {
            lex(s, q + 2)
        } else {
            operator(s, q)
        }
    }
}

// ---------------------------------------------------------------------------
// Facts about the grammar
// ---------------------------------------------------------------------------

/// How `c` is written inside a string literal: a backslash, a quote and a line
/// feed escaped, any other character as it is.
pub open spec fn written(c: char) -> Seq<char> {
    if c == '\\' {
        seq!['\\', '\\']
    } else if c == '"' {
        seq!['\\', '"']
    } else if c == '\n' {
        seq!['\\', 'n']
    } else {
        seq![c]
    }
}

/// The body of a string literal that stands for `v`.
pub open spec fn written_text(v: Seq<char>) -> Seq<char>
    decreases v.len(),
{
    if v.len() == 0 {
        Seq::empty()
    } else {
        written(v[0]) + written_text(v.skip(1))
    }
}

/// The token read from a quote, the body `written_text(v)` and a closing quote is
/// the string `v`, and it ends after the closing quote.
pub proof fn lemma_string_token(v: Seq<char>, post: Seq<char>)
    ensures
        lex(seq!['"'] + written_text(v) + seq!['"'] + post, 0) == Lexed::Tok(
            SpecTK::Str(v),
            0,
            (written_text(v).len() + 2) as int,
        ),
{
    let s = seq!['"'] + written_text(v) + seq!['"'] + post;
    lemma_string_literal_round_trip(seq!['"'], v, post);
    assert(s[0] == '"');
    assert(ws_end(s, 0) == 0);
}

/// A string literal reads back as the text it was written from: every escape
/// stands for exactly the character it was written for. The body `written_text(v)`
/// and the closing quote, found at `pre.len()`, give `v` and the position after
/// the quote, whatever comes before or after.
pub proof fn lemma_string_literal_round_trip(pre: Seq<char>, v: Seq<char>, post: Seq<char>)
    ensures
        string_lit(pre + written_text(v) + seq!['"'] + post, pre.len() as int) == Some(
            (v, (pre.len() + written_text(v).len() + 1) as int),
        ),
    decreases v.len(),
{
    let s = pre + written_text(v) + seq!['"'] + post;
    let p = pre.len() as int;
    if v.len() == 0 {
        assert(s[p] == '"');
    } else {
        let c = v[0];
        let w = written(c);
        let pre2 = pre + w;
        lemma_string_literal_round_trip(pre2, v.skip(1), post);
        assert(pre2 + written_text(v.skip(1)) + seq!['"'] + post =~= s);
        assert(s[p] == w[0]);
        if w.len() == 2 {
            assert(s[p + 1] == w[1]);
            assert(escape(w[1]) =~= seq![c]);
        } else {
            assert(s[p] != '\n' && s[p] != '"' && s[p] != '\\');
        }
        assert(seq![c] + v.skip(1) =~= v);
    }
}


#[via_fn]
proof fn ws_end_decreases(s: Seq<char>, p: int) {
    lemma_comment_end_bounds(s, p + 1);
}

#[via_fn]
proof fn lex_decreases(s: Seq<char>, p: int) {
    lemma_ws_end_bounds(s, p);
}

proof fn lemma_newlines_step(s: Seq<char>, p: int)
    requires
        0 <= p,
    ensures
        newlines_before(s, p + 1) == newlines_before(s, p) + if p < s.len() && s[p] == '\n' {
            1nat
        } else {
            0nat
        },
{
    if p >= s.len() {
        if p > s.len() {
            assert(newlines_before(s, p) == newlines_before(s, s.len() as int));
        }
        assert(newlines_before(s, p + 1) == newlines_before(s, s.len() as int));
    }
}

proof fn lemma_newlines_bound(s: Seq<char>, p: int)
    requires
        0 <= p <= s.len(),
    ensures
        newlines_before(s, p) <= p,
    decreases p,
{
    if p > 0 {
        lemma_newlines_bound(s, p - 1);
    }
}

proof fn lemma_ws_end_bounds(s: Seq<char>, p: int)
    ensures
        ws_end(s, p) >= p,
        p <= s.len() ==> ws_end(s, p) <= s.len(),
    decreases s.len() - p,
{
    if 0 <= p < s.len() && s[p] == '#' {
        lemma_comment_end_bounds(s, p + 1);
        lemma_ws_end_bounds(s, comment_end(s, p + 1));
    } else if 0 <= p < s.len() && (s[p] == ' ' || s[p] == '\t' || s[p] == '\r') {
        lemma_ws_end_bounds(s, p + 1);
    }
}

proof fn lemma_comment_end_bounds(s: Seq<char>, p: int)
    ensures
        comment_end(s, p) >= p,
        p <= s.len() ==> comment_end(s, p) <= s.len(),
    decreases s.len() - p,
{
    if 0 <= p < s.len() && s[p] != '\n' {
        lemma_comment_end_bounds(s, p + 1);
    }
}

proof fn lemma_digits_end_bounds(s: Seq<char>, p: int)
    requires
        0 <= p <= s.len(),
    ensures
        p <= digits_end(s, p) <= s.len(),
    decreases s.len() - p,
{
    if p < s.len() && is_ascii_digit(s[p]) {
        lemma_digits_end_bounds(s, p + 1);
    }
}

proof fn lemma_ident_end_bounds(s: Seq<char>, p: int)
    requires
        0 <= p <= s.len(),
    ensures
        p <= ident_end(s, p) <= s.len(),
    decreases s.len() - p,
{
    if p < s.len() && (unicode_alphanumeric(s[p]) || s[p] == '_') {
        lemma_ident_end_bounds(s, p + 1);
    }
}

proof fn lemma_string_lit_bounds(s: Seq<char>, p: int)
    requires
        0 <= p,
    ensures
        string_lit(s, p) matches Some((_, e)) ==> p < e <= s.len(),
    decreases s.len() - p,
{
    if 0 <= p < s.len() && s[p] != '\n' && s[p] != '"' {
        if s[p] == '\\' {
            if p + 1 < s.len() {
                lemma_string_lit_bounds(s, p + 2);
            }
        } else {
            lemma_string_lit_bounds(s, p + 1);
        }
    }
}

proof fn lemma_regex_lit_bounds(s: Seq<char>, p: int)
    requires
        0 <= p,
    ensures
        regex_lit(s, p) matches Some((_, e)) ==> p < e <= s.len(),
    decreases s.len() - p,
{
    if 0 <= p < s.len() && s[p] != '\n' && s[p] != '/' {
        if s[p] == '\\' {
            if p + 1 < s.len() {
                lemma_regex_lit_bounds(s, p + 2);
            }
        } else {
            lemma_regex_lit_bounds(s, p + 1);
        }
    }
}

/// Reading a token never moves backwards, and a token other than end of input
/// consumes at least one character; end of input is read where the input ends.
pub proof fn lemma_lex_progress(s: Seq<char>, p: int)
    requires
        0 <= p <= s.len() + 1,
    ensures
        lex(s, p) matches Lexed::Tok(t, st, e) ==> {
            &&& p <= st <= e
            &&& (p <= s.len() ==> e <= s.len())
            &&& (is_sym(t, Sym::Eof) ==> st == e)
        },
        lex(s, p) matches Lexed::Fail(_, st) ==> p <= st < s.len(),
    decreases s.len() - p,
{
    lemma_ws_end_bounds(s, p);
    let q = ws_end(s, p);
    if 0 <= q < s.len() {
        let c = s[q];
        if c == '"' {
            lemma_string_lit_bounds(s, q + 1);
        } else if is_ascii_digit(c) || (c == '.' && q + 1 < s.len() && is_ascii_digit(s[q + 1])) {
            lemma_number_end_bounds(s, q);
        } else if unicode_alphabetic(c) || c == '_' {
            lemma_ident_end_bounds(s, q);
        } else if c == '\\' && char_at_is(s, q + 1, '\n') {
            lemma_lex_progress(s, q + 2);
        }
    }
}

proof fn lemma_number_end_bounds(s: Seq<char>, q: int)
    requires
        0 <= q < s.len(),
        is_ascii_digit(s[q]) || (s[q] == '.' && q + 1 < s.len() && is_ascii_digit(s[q + 1])),
    ensures
        q < number_end(s, q) <= s.len(),
{
    lemma_digits_end_bounds(s, q);
    lemma_digits_end_bounds(s, q + 1);
    let a = digits_end(s, q);
    let b = if char_at_is(s, a, '.') {
        lemma_digits_end_bounds(s, a + 1);
        digits_end(s, a + 1)
    } else {
        a
    };
    if char_at_is(s, b, 'e') || char_at_is(s, b, 'E') {
        let c = if char_at_is(s, b + 1, '+') || char_at_is(s, b + 1, '-') {
            b + 2
        } else {
            b + 1
        };
        lemma_digits_end_bounds(s, c);
    }
}

// ---------------------------------------------------------------------------
// The lexer
// ---------------------------------------------------------------------------

pub struct Lexer {
    pub chars: Vec<char>,
    pub pos: usize,
    pub line: usize,
}

impl Lexer {
    /// The lexer's position lies within the input or just past it, and its line number
    /// counts the line feeds before that position.
    pub open spec fn wf(&self) -> bool {
        &&& self.pos <= self.chars.len() + 1
        &&& self.chars.len() + 3 < usize::MAX
        &&& self.line == 1 + newlines_before(self.chars@, self.pos as int)
    }

    /// How much input is left to read; it bounds the number of tokens still to come.
    pub open spec fn remaining(&self) -> nat {
        (self.chars.len() + 1 - self.pos) as nat
    }

    pub fn new(src: &str) -> (l: Lexer)
        requires
            src@.len() + 3 < usize::MAX,
        ensures
            l.wf(),
            l.chars@ == src@,
            l.pos == 0,
            l.line == 1,
    {
        Lexer { chars: chars_of(src), pos: 0, line: 1 }
    }

    pub fn peek(&self) -> (r: Option<char>)
        ensures
            r == (if self.pos < self.chars.len() {
                Some(self.chars@[self.pos as int])
            } else {
                None::<char>
            }),
    {
        if self.pos < self.chars.len() {
            Some(self.chars[self.pos])
        } else {
            None
        }
    }

    pub fn peek2(&self) -> (r: Option<char>)
        requires
            self.wf(),
        ensures
            r == (if self.pos + 1 < self.chars.len() {
                Some(self.chars@[self.pos + 1])
            } else {
                None::<char>
            }),
    {
        if self.pos + 1 < self.chars.len() {
            Some(self.chars[self.pos + 1])
        } else {
            None
        }
    }

    /// Consumes one character, counting it if it is a line feed.
    pub fn advance(&mut self) -> (r: Option<char>)
        requires
            old(self).wf(),
            old(self).pos <= old(self).chars.len(),
        ensures
            final(self).wf(),
            final(self).chars == old(self).chars,
            final(self).pos == old(self).pos + 1,
            r == (if old(self).pos < old(self).chars.len() {
                Some(old(self).chars@[old(self).pos as int])
            } else {
                None::<char>
            }),
    {
        proof {
            lemma_newlines_step(self.chars@, self.pos as int);
            lemma_newlines_bound(self.chars@, self.pos as int);
        }
        let c = self.peek();
        if c == Some('\n') {
            self.line = self.line + 1;
        }
        self.pos = self.pos + 1;
        c
    }

    /// Skips blanks and comments.
    pub fn skip_ws_comments(&mut self)
        requires
            old(self).wf(),
        ensures
            final(self).wf(),
            final(self).chars == old(self).chars,
            final(self).pos == ws_end(old(self).chars@, old(self).pos as int),
    {
        loop
            invariant
                self.wf(),
                self.chars == old(self).chars,
                old(self).pos <= self.pos,
                ws_end(self.chars@, self.pos as int) == ws_end(old(self).chars@, old(self).pos as int),
            ensures
                self.wf(),
                self.chars == old(self).chars,
                self.pos == ws_end(old(self).chars@, old(self).pos as int),
            decreases self.chars.len() + 1 - self.pos,
        {
            let c = self.peek();
            let ghost start = self.pos;
            if c == Some('#') {
                self.advance();
                while self.peek().is_some() && self.peek() != Some('\n')
                    invariant
                        self.wf(),
                        self.chars == old(self).chars,
                        old(self).pos <= start < self.pos <= self.chars.len(),
                        ws_end(self.chars@, comment_end(self.chars@, self.pos as int))
                            == ws_end(old(self).chars@, old(self).pos as int),
                    decreases self.chars.len() - self.pos,
                {
                    self.advance();
                }
            } else if c == Some(' ') || c == Some('\t') || c == Some('\r') {
                self.advance();
            } else {
                break;
            }
        }
    }

    /// Reads the body of a string literal; the opening quote has been consumed.
    fn lex_string(&mut self, ln: usize) -> (r: Result<Token, LexError>)
        requires
            old(self).wf(),
            old(self).pos <= old(self).chars.len(),
        ensures
            final(self).wf(),
            final(self).chars == old(self).chars,
            old(self).pos <= final(self).pos,
            match string_lit(old(self).chars@, old(self).pos as int) {
                Some((t, e)) => r matches Ok(tok) && tok.kind@ == SpecTK::Str(t) && tok.line == ln
                    && final(self).pos == e,
                None => r matches Err(err) && err.kind == LexErrKind::UnterminatedString
                    && err.line == ln,
            },
    {
        let mut buf: Vec<char> = Vec::new();
        let ghost s = self.chars@;
        let ghost whole = string_lit(s, old(self).pos as int);
        loop
            invariant
                self.wf(),
                self.chars == old(self).chars,
                s == self.chars@,
                old(self).pos <= self.pos <= self.chars.len() + 1,
                whole == string_lit(s, old(self).pos as int),
                whole == match string_lit(s, self.pos as int) {
                    Some((t, e)) => Some((buf@ + t, e)),
                    None => None::<(Seq<char>, int)>,
                },
            decreases self.chars.len() + 1 - self.pos,
        {
            let c = self.peek();
            if c.is_none() || c == Some('\n') {
                return Err(LexError { kind: LexErrKind::UnterminatedString, line: ln });
            }
            let ch = c.unwrap();
            if ch == '"' {
                self.advance();
                assert(buf@ + Seq::<char>::empty() =~= buf@);
                return Ok(Token { kind: TK::Str(string_of(buf.as_slice())), line: ln });
            } else if ch == '\\' {
                self.advance();
                let e = self.advance();
                match e {
                    Some(x) => {
                        let ghost before = buf@;
                        if x == 'n' {
                            buf.push('\n');
                        } else if x == 't' {
                            buf.push('\t');
                        } else if x == 'r' {
                            buf.push('\r');
                        } else if x == '\\' {
                            buf.push('\\');
                        } else if x == '"' {
                            buf.push('"');
                        } else if x == '/' {
                            buf.push('/');
                        } else {
                            buf.push('\\');
                            buf.push(x);
                        }
                        proof {
                            assert(buf@ =~= before + escape(x));
                            if let Some((t, e2)) = string_lit(s, self.pos as int) {
                                assert(before + (escape(x) + t) =~= buf@ + t);
                            }
                        }
                    },
                    None => {
                        return Err(LexError { kind: LexErrKind::UnterminatedString, line: ln });
                    },
                }
            } else {
                let ghost before = buf@;
                self.advance();
                buf.push(ch);
                proof {
                    if let Some((t, e2)) = string_lit(s, self.pos as int) {
                        assert(before + (seq![ch] + t) =~= buf@ + t);
                    }
                }
            }
        }
    }

    /// Advances over a run of ASCII digits, appending them to `buf`.
    fn take_digits(&mut self, buf: &mut Vec<char>)
        requires
            old(self).wf(),
            old(self).pos <= old(self).chars.len(),
        ensures
            final(self).wf(),
            final(self).chars == old(self).chars,
            final(self).pos == digits_end(old(self).chars@, old(self).pos as int),
            final(buf)@ == old(buf)@ + old(self).chars@.subrange(
                old(self).pos as int,
                final(self).pos as int,
            ),
    {
        while self.peek().is_some() && is_ascii_digit_exec(self.peek().unwrap())
            invariant
                self.wf(),
                self.chars == old(self).chars,
                old(self).pos <= self.pos <= self.chars.len(),
                digits_end(self.chars@, self.pos as int) == digits_end(
                    old(self).chars@,
                    old(self).pos as int,
                ),
                buf@ == old(buf)@ + self.chars@.subrange(old(self).pos as int, self.pos as int),
            decreases self.chars.len() - self.pos,
        {
            let ghost p = self.pos;
            let c = self.advance().unwrap();
            buf.push(c);
            assert(self.chars@.subrange(old(self).pos as int, self.pos as int) =~= self.chars@.subrange(
                old(self).pos as int,
                p as int,
            ).push(c));
        }
    }

    /// Reads a number literal starting at the current position.
    fn lex_number(&mut self, ln: usize) -> (tok: Token)
        requires
            old(self).wf(),
            old(self).pos < old(self).chars.len(),
        ensures
            final(self).wf(),
            final(self).chars == old(self).chars,
            final(self).pos == number_end(old(self).chars@, old(self).pos as int),
            tok.kind@ == SpecTK::Num(
                old(self).chars@.subrange(old(self).pos as int, final(self).pos as int),
            ),
            tok.line == ln,
    {
        let ghost s = self.chars@;
        let ghost q = self.pos as int;
        let mut buf: Vec<char> = Vec::new();
        proof {
            lemma_digits_end_bounds(s, q);
        }
        self.take_digits(&mut buf);
        if self.peek() == Some('.') {
            let c = self.advance().unwrap();
            buf.push(c);
            proof {
                lemma_digits_end_bounds(s, self.pos as int);
            }
            self.take_digits(&mut buf);
        }
        let ghost b = self.pos as int;
        let p = self.peek();
        if p == Some('e') || p == Some('E') {
            let c = self.advance().unwrap();
            buf.push(c);
            let p2 = self.peek();
            if p2 == Some('+') || p2 == Some('-') {
                let c2 = self.advance().unwrap();
                buf.push(c2);
            }
            proof {
                lemma_digits_end_bounds(s, self.pos as int);
            }
            self.take_digits(&mut buf);
        }
        assert(buf@ =~= s.subrange(q, self.pos as int));
        Token { kind: TK::Num(string_of(buf.as_slice())), line: ln }
    }

    /// Reads an identifier or keyword starting at the current position.
    fn lex_word(&mut self, ln: usize) -> (tok: Token)
        requires
            old(self).wf(),
            old(self).pos < old(self).chars.len(),
        ensures
            final(self).wf(),
            final(self).chars == old(self).chars,
            final(self).pos == ident_end(old(self).chars@, old(self).pos as int),
            ({
                let w = old(self).chars@.subrange(old(self).pos as int, final(self).pos as int);
                tok.kind@ == match keyword(w) {
                    Some(k) => SpecTK::Sym(k),
                    None => SpecTK::Ident(w),
                }
            }),
            tok.line == ln,
    {
        let mut buf: Vec<char> = Vec::new();
        while self.peek().is_some() && (is_alphanumeric(self.peek().unwrap()) || self.peek()
            == Some('_'))
            invariant
                self.wf(),
                self.chars == old(self).chars,
                old(self).pos <= self.pos <= self.chars.len(),
                ident_end(self.chars@, self.pos as int) == ident_end(
                    old(self).chars@,
                    old(self).pos as int,
                ),
                buf@ == self.chars@.subrange(old(self).pos as int, self.pos as int),
            decreases self.chars.len() - self.pos,
        {
            let ghost p = self.pos;
            let c = self.advance().unwrap();
            buf.push(c);
            assert(self.chars@.subrange(old(self).pos as int, self.pos as int) =~= self.chars@.subrange(
                old(self).pos as int,
                p as int,
            ).push(c));
        }
        let word = string_of(buf.as_slice());
        let kind = keyword_exec(&word);
        Token { kind, line: ln }
    }

    /// Reads the next token, skipping blanks, comments and escaped line feeds.
    pub fn next_token(&mut self) -> (r: Result<Token, LexError>)
        requires
            old(self).wf(),
        ensures
            final(self).wf(),
            final(self).chars == old(self).chars,
            old(self).pos <= final(self).pos,
            r matches Ok(tok) && !is_sym(tok.kind@, Sym::Eof) ==> old(self).pos < final(self).pos,
            match lex(old(self).chars@, old(self).pos as int) {
                Lexed::Tok(t, st, e) => r matches Ok(tok) && tok.kind@ == t && final(self).pos == e
                    && tok.line == 1 + newlines_before(old(self).chars@, st),
                Lexed::Fail(k, st) => r matches Err(err) && err.kind == k && err.line == 1
                    + newlines_before(old(self).chars@, st),
            },
        decreases old(self).chars.len() + 1 - old(self).pos,
    {
        let ghost s = self.chars@;
        let ghost p0 = self.pos as int;
        proof {
            lemma_ws_end_bounds(s, p0);
            lemma_lex_progress(s, p0);
        }
        self.skip_ws_comments();
        let ln = self.line;
        let ghost q = self.pos as int;
        let c = match self.peek() {
            None => {
                return Ok(Token { kind: TK::Sym(Sym::Eof), line: ln });
            },
            Some(c) => c,
        };
        if c == '\n' {
            self.advance();
            return Ok(Token { kind: TK::Sym(Sym::Newline), line: ln });
        }
        if c == '"' {
            self.advance();
            return self.lex_string(ln);
        }
        let n2 = self.peek2();
        if is_ascii_digit_exec(c) || (c == '.' && n2.is_some() && is_ascii_digit_exec(n2.unwrap())) {
            proof {
                lemma_number_end_bounds(s, q);
            }
            return Ok(self.lex_number(ln));
        }
        if is_alphabetic(c) || c == '_' {
            proof {
                lemma_ident_end_bounds(s, q + 1);
            }
            return Ok(self.lex_word(ln));
        }
        self.advance();
        let nx = self.peek();
        let kind = if c == '+' {
            if nx == Some('+') {
                self.advance();
                Sym::PlusPlus
            } else if nx == Some('=') {
                self.advance();
                Sym::PlusEq
            } else {
                Sym::Plus
            }
        } else if c == '-' {
            if nx == Some('-') {
                self.advance();
                Sym::MinusMinus
            } else if nx == Some('=') {
                self.advance();
                Sym::MinusEq
            } else {
                Sym::Minus
            }
        } else if c == '*' {
            if nx == Some('=') {
                self.advance();
                Sym::StarEq
            } else {
                Sym::Star
            }
        } else if c == '/' {
            if nx == Some('=') {
                self.advance();
                Sym::SlashEq
            } else {
                Sym::Slash
            }
        } else if c == '%' {
            if nx == Some('=') {
                self.advance();
                Sym::PercentEq
            } else {
                Sym::Percent
            }
        } else if c == '^' {
            if nx == Some('=') {
                self.advance();
                Sym::CaretEq
            } else {
                Sym::Caret
            }
        } else if c == '=' {
            if nx == Some('=') {
                self.advance();
                Sym::EqEq
            } else {
                Sym::Eq
            }
        } else if c == '!' {
            if nx == Some('=') {
                self.advance();
                Sym::BangEq
            } else if nx == Some('~') {
                self.advance();
                Sym::BangTilde
            } else {
                Sym::Bang
            }
        } else if c == '<' {
            if nx == Some('=') {
                self.advance();
                Sym::LtEq
            } else {
                Sym::Lt
            }
        } else if c == '>' {
            if nx == Some('>') {
                self.advance();
                Sym::Append
            } else if nx == Some('=') {
                self.advance();
                Sym::GtEq
            } else {
                Sym::Gt
            }
        } else if c == '&' {
            if nx == Some('&') {
                self.advance();
                Sym::And
            } else {
                return Err(LexError { kind: LexErrKind::UnexpectedAmpersand, line: ln });
            }
        } else if c == '|' {
            if nx == Some('|') {
                self.advance();
                Sym::Or
            } else {
                Sym::Pipe
            }
        } else if c == '~' {
            Sym::Tilde
        } else if c == ',' {
            Sym::Comma
        } else if c == ';' {
            Sym::Semi
        } else if c == ':' {
            Sym::Colon
        } else if c == '?' {
            Sym::Question
        } else if c == '{' {
            Sym::LBrace
        } else if c == '}' {
            Sym::RBrace
        } else if c == '(' {
            Sym::LParen
        } else if c == ')' {
            Sym::RParen
        } else if c == '[' {
            Sym::LBrack
        } else if c == ']' {
            Sym::RBrack
        } else if c == '$' {
            Sym::Dollar
        } else if c == '\\' && nx == Some('\n') {
            self.advance();
            return self.next_token();
        } else {
            return Err(LexError { kind: LexErrKind::UnexpectedChar(c), line: ln });
        };
        Ok(Token { kind: TK::Sym(kind), line: ln })
    }

    /// Reads the body of a regular expression literal up to its closing slash.
    pub fn lex_regex(&mut self) -> (r: Result<Token, LexError>)
        requires
            old(self).wf(),
        ensures
            final(self).wf(),
            final(self).chars == old(self).chars,
            old(self).pos <= final(self).pos,
            r is Ok ==> old(self).pos < final(self).pos,
            match regex_lit(old(self).chars@, old(self).pos as int) {
                Some((t, e)) => r matches Ok(tok) && tok.kind@ == SpecTK::Regex(t) && tok.line
                    == old(self).line && final(self).pos == e,
                None => r matches Err(err) && err.kind == LexErrKind::UnterminatedRegex
                    && err.line == old(self).line,
            },
    {
        let ln = self.line;
        let mut buf: Vec<char> = Vec::new();
        let ghost s = self.chars@;
        let ghost whole = regex_lit(s, old(self).pos as int);
        loop
            invariant
                self.wf(),
                self.chars == old(self).chars,
                s == self.chars@,
                old(self).pos <= self.pos <= self.chars.len() + 1,
                ln == old(self).line,
                whole == regex_lit(s, old(self).pos as int),
                whole == match regex_lit(s, self.pos as int) {
                    Some((t, e)) => Some((buf@ + t, e)),
                    None => None::<(Seq<char>, int)>,
                },
            decreases self.chars.len() + 1 - self.pos,
        {
            let c = self.peek();
            if c.is_none() || c == Some('\n') {
                return Err(LexError { kind: LexErrKind::UnterminatedRegex, line: ln });
            }
            let ch = c.unwrap();
            if ch == '/' {
                self.advance();
                assert(buf@ + Seq::<char>::empty() =~= buf@);
                return Ok(Token { kind: TK::Regex(string_of(buf.as_slice())), line: ln });
            } else if ch == '\\' {
                self.advance();
                let e = self.advance();
                match e {
                    Some(x) => {
                        let ghost before = buf@;
                        buf.push('\\');
                        buf.push(x);
                        proof {
                            if let Some((t, e2)) = regex_lit(s, self.pos as int) {
                                assert(before + (seq!['\\', x] + t) =~= buf@ + t);
                            }
                        }
                    },
                    None => {
                        return Err(LexError { kind: LexErrKind::UnterminatedRegex, line: ln });
                    },
                }
            } else {
                let ghost before = buf@;
                self.advance();
                buf.push(ch);
                proof {
                    if let Some((t, e2)) = regex_lit(s, self.pos as int) {
                        assert(before + (seq![ch] + t) =~= buf@ + t);
                    }
                }
            }
        }
    }
}

pub fn is_ascii_digit_exec(c: char) -> (r: bool)
    ensures
        r == is_ascii_digit(c),
{
    '0' <= c && c <= '9'
}

fn word_is(w: &String, lit: &str) -> (r: bool)
    ensures
        r == (w@ == lit@),
{
    *w == String::from_str(lit)
}

/// The token a word makes: its keyword, or an identifier.
fn keyword_exec(w: &String) -> (k: TK)
    ensures
        k@ == match keyword(w@) {
            Some(x) => SpecTK::Sym(x),
            None => SpecTK::Ident(w@),
        },
{
    if word_is(w, "BEGIN") {
        TK::Sym(Sym::BEGIN)
    } else if word_is(w, "END") {
        TK::Sym(Sym::END)
    } else if word_is(w, "if") {
        TK::Sym(Sym::If)
    } else if word_is(w, "else") {
        TK::Sym(Sym::Else)
    } else if word_is(w, "while") {
        TK::Sym(Sym::While)
    } else if word_is(w, "do") {
        TK::Sym(Sym::Do)
    } else if word_is(w, "for") {
        TK::Sym(Sym::For)
    } else if word_is(w, "in") {
        TK::Sym(Sym::In)
    } else if word_is(w, "break") {
        TK::Sym(Sym::Break)
    } else if word_is(w, "continue") {
        TK::Sym(Sym::Continue)
    } else if word_is(w, "next") {
        TK::Sym(Sym::Next)
    } else if word_is(w, "exit") {
        TK::Sym(Sym::Exit)
    } else if word_is(w, "print") {
        TK::Sym(Sym::Print)
    } else if word_is(w, "printf") {
        TK::Sym(Sym::Printf)
    } else if word_is(w, "delete") {
        TK::Sym(Sym::Delete)
    } else if word_is(w, "return") {
        TK::Sym(Sym::Return)
    } else if word_is(w, "function") {
        TK::Sym(Sym::Function)
    } else if word_is(w, "getline") {
        TK::Sym(Sym::Getline)
    } else {
        TK::Ident(w.clone())
    }
}

} // verus!
