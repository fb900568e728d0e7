//! The parser: a precedence-climbing expression parser and a statement
//! parser, one statement per line, over the tokens of a source text.
use vstd::prelude::*;
use crate::ast::{Expr, ExprV, Lit, LitV, Stmt, StmtV};
use crate::lexer::{
    byte_span, in_class, lemma_lexeme_bounds, lemma_run_bounds, lemma_run_members, lexeme,
    lexeme_at, source_fits, CharClass,
};
use crate::text::{digits, push_digits, push_str, string_of};
use crate::token::{infix_power, kind_name, prefix_power, Token, TokenKind};

verus! {

/// What a syntax error found wrong.
#[derive(Clone, Copy, Debug, PartialEq, Eq, Structural)]
pub enum SyntaxErrorKind {
    /// An expression was expected; the token found.
    ExpectedExpression(TokenKind),
    /// An operator or the end of the expression was expected.
    ExpectedOperator,
    /// The kind expected, then the kind found.
    Expected(TokenKind, TokenKind),
    /// A statement was expected; the token found.
    ExpectedStatement(TokenKind),
    /// An identifier was expected; the token found.
    ExpectedIdentifier(TokenKind),
    /// An integer literal beyond the range of `i64`.
    IntegerTooLarge,
}

/// A syntax error at a line and column of the source, both counted from 1.
#[derive(Clone, Copy, Debug, PartialEq, Eq, Structural)]
pub struct SyntaxError {
    pub line: usize,
    pub column: usize,
    pub kind: SyntaxErrorKind,
}

/// Why parsing stopped.
#[derive(Clone, Copy, Debug, PartialEq, Eq, Structural)]
pub enum ParseError {
    /// The input ended where an expression or a statement was expected.
    UnexpectedEof,
    Syntax(SyntaxError),
}

/// Line and column, from 1, of character position `i`; a column counts
/// characters from the start of the line.
pub open spec fn line_col(cs: Seq<char>, i: int) -> (nat, nat)
    decreases i,
{
    if i <= 0 || i > cs.len() {
        (1, 1)
    } else {
        let (l, c) = line_col(cs, i - 1);
        if cs[i - 1] == '\n' {
            (l + 1, 1)
        } else {
            (l, c + 1)
        }
    }
}

pub open spec fn syntax(cs: Seq<char>, at: int, kind: SyntaxErrorKind) -> ParseError {
    ParseError::Syntax(
        SyntaxError {
            line: line_col(cs, at).0 as usize,
            column: line_col(cs, at).1 as usize,
            kind,
        },
    )
}

/// Value of a sequence of decimal digits.
pub open spec fn digits_value(w: Seq<char>) -> nat
    decreases w.len(),
{
    if w.len() == 0 {
        0
    } else {
        digits_value(w.drop_last()) * 10 + ((w.last() as u32) - 48) as nat
    }
}

/// The text of a string literal's body with the escapes `\"` and `\\`
/// replaced by the character they stand for.
pub open spec fn unescape(w: Seq<char>) -> Seq<char>
    decreases w.len(),
{
    if w.len() == 0 {
        Seq::empty()
    } else if w[0] == '\\' && w.len() >= 2 {
        seq![w[1]] + unescape(w.subrange(2, w.len() as int))
    } else {
        seq![w[0]] + unescape(w.subrange(1, w.len() as int))
    }
}

/// The next token must be of kind `want`: the position after it.
pub open spec fn expect(cs: Seq<char>, pos: int, want: TokenKind) -> Result<int, ParseError> {
    let (k, s, e) = lexeme(cs, pos);
    if k == want {
        Ok(e)
    } else {
        Err(syntax(cs, s, SyntaxErrorKind::Expected(want, k)))
    }
}

/// The expression that a literal or an identifier token from `s` to `e`
/// stands for.
pub open spec fn atom(cs: Seq<char>, k: TokenKind, s: int, e: int) -> Result<ExprV, ParseError> {
    if k == TokenKind::IntLit {
        let v = digits_value(cs.subrange(s, e));
        if v <= i64::MAX {
            Ok(ExprV::Literal(LitV::Int(v as i64)))
        } else {
            Err(syntax(cs, s, SyntaxErrorKind::IntegerTooLarge))
        }
    } else if k == TokenKind::StringLit {
        Ok(ExprV::Literal(LitV::Str(unescape(cs.subrange(s + 1, e - 1)))))
    } else if k == TokenKind::True {
        Ok(ExprV::Literal(LitV::Bool(true)))
    } else if k == TokenKind::False {
        Ok(ExprV::Literal(LitV::Bool(false)))
    } else {
        Ok(ExprV::Ident(cs.subrange(s, e)))
    }
}

pub open spec fn is_atom(k: TokenKind) -> bool {
    k == TokenKind::Ident || k == TokenKind::Pop || k == TokenKind::IntLit || k
        == TokenKind::StringLit || k == TokenKind::True || k == TokenKind::False
}

/// Tokens that end an expression without being part of it.
pub open spec fn ends_expr(k: TokenKind) -> bool {
    k == TokenKind::Eof || k == TokenKind::RightParen || k == TokenKind::Newline || k
        == TokenKind::Not
}

/// A successful parse from `pos` ends past it and within the input. This
/// always holds; the parse functions test it so that their definitions
/// plainly terminate.
pub open spec fn moved_on(cs: Seq<char>, pos: int, p: int) -> bool {
    pos < p <= cs.len()
}

/// Parses an expression at `pos` whose operators bind at least as tightly as
/// `bp`: the expression and the position after it.
pub open spec fn parse_expr_at(cs: Seq<char>, pos: int, bp: int) -> Result<(ExprV, int), ParseError>
    decreases cs.len() - pos, 1int,
    when 0 <= pos <= cs.len()
{
    proof {
        lemma_lexeme_bounds(cs, pos);
    }
    let (k, s, e) = lexeme(cs, pos);
    if is_atom(k) {
        match atom(cs, k, s, e) {
            Ok(x) => parse_infix_at(cs, e, bp, x),
            Err(er) => Err(er),
        }
    } else if k == TokenKind::LeftParen {
        match parse_expr_at(cs, e, 0) {
            Ok((x, p)) => match expect(cs, p, TokenKind::RightParen) {
                Ok(q) => if moved_on(cs, pos, q) {
                    parse_infix_at(cs, q, bp, x)
                } else {
                    Err(ParseError::UnexpectedEof)
                },
                Err(er) => Err(er),
            },
            Err(er) => Err(er),
        }
    } else if prefix_power(k) is Some {
        match parse_expr_at(cs, e, prefix_power(k)->0 as int) {
            Ok((x, p)) => if moved_on(cs, pos, p) {
                parse_infix_at(cs, p, bp, ExprV::UnaryOp(k, Box::new(x)))
            } else {
                Err(ParseError::UnexpectedEof)
            },
            Err(er) => Err(er),
        }
    } else if k == TokenKind::Eof {
        Err(ParseError::UnexpectedEof)
    } else {
        Err(syntax(cs, s, SyntaxErrorKind::ExpectedExpression(k)))
    }
}

/// Continues an expression whose left operand `lhs` ends at `pos`, folding
/// in infix operators that bind at least as tightly as `bp`, left to right.
pub open spec fn parse_infix_at(cs: Seq<char>, pos: int, bp: int, lhs: ExprV) -> Result<
    (ExprV, int),
    ParseError,
>
    decreases cs.len() - pos, 0int,
    when 0 <= pos <= cs.len()
{
    proof {
        lemma_lexeme_bounds(cs, pos);
    }
    let (k, s, e) = lexeme(cs, pos);
    match infix_power(k) {
        Some((l, r)) => if (l as int) < bp {
            Ok((lhs, pos))
        } else {
            match parse_expr_at(cs, e, r as int) {
                Ok((rhs, p)) => if moved_on(cs, pos, p) {
                    parse_infix_at(cs, p, bp, ExprV::BinaryOp(k, Box::new(lhs), Box::new(rhs)))
                } else {
                    Err(ParseError::UnexpectedEof)
                },
                Err(er) => Err(er),
            }
        },
        None => if ends_expr(k) {
            Ok((lhs, pos))
        } else {
            Err(syntax(cs, s, SyntaxErrorKind::ExpectedOperator))
        },
    }
}

/// A statement `st` whose last part ends at `p` must be followed by a
/// newline.
pub open spec fn end_of_line(cs: Seq<char>, p: int, st: StmtV) -> Result<(StmtV, int), ParseError> {
    match expect(cs, p, TokenKind::Newline) {
        Ok(q) => Ok((st, q)),
        Err(er) => Err(er),
    }
}

/// Parses the statement at `pos`: the statement and the position after its
/// newline.
#[verifier::opaque]
pub open spec fn parse_stmt_at(cs: Seq<char>, pos: int) -> Result<(StmtV, int), ParseError> {
    let (k, s, e) = lexeme(cs, pos);
    if k == TokenKind::SetKw {
        let (k2, s2, e2) = lexeme(cs, e);
        if k2 == TokenKind::Ident || k2 == TokenKind::Pop {
            match parse_expr_at(cs, e2, 0) {
                Ok((x, p)) => end_of_line(cs, p, StmtV::Assign(cs.subrange(s2, e2), x)),
                Err(er) => Err(er),
            }
        } else {
            Err(syntax(cs, s2, SyntaxErrorKind::ExpectedIdentifier(k2)))
        }
    } else if k == TokenKind::Push || k == TokenKind::Check || k == TokenKind::Print {
        match parse_expr_at(cs, e, 0) {
            Ok((x, p)) => end_of_line(
                cs,
                p,
                if k == TokenKind::Push {
                    StmtV::Push(x)
                } else if k == TokenKind::Check {
                    StmtV::Check(x)
                } else {
                    StmtV::Print(x)
                },
            ),
            Err(er) => Err(er),
        }
    } else if k == TokenKind::Pop {
        end_of_line(cs, e, StmtV::Pop)
    } else if k == TokenKind::Eof {
        Err(ParseError::UnexpectedEof)
    } else {
        Err(syntax(cs, s, SyntaxErrorKind::ExpectedStatement(k)))
    }
}

/// Parses statements from `pos` until the input ends where a statement or
/// an expression is expected; any other error is the program's.
pub open spec fn parse_program_at(cs: Seq<char>, pos: int) -> Result<Seq<StmtV>, ParseError>
    decreases cs.len() - pos,
    when 0 <= pos <= cs.len()
{
    match parse_stmt_at(cs, pos) {
        Ok((st, p)) => if moved_on(cs, pos, p) {
            match parse_program_at(cs, p) {
                Ok(rest) => Ok(seq![st] + rest),
                Err(er) => Err(er),
            }
        } else {
            Err(ParseError::UnexpectedEof)
        },
        Err(ParseError::UnexpectedEof) => Ok(Seq::empty()),
        Err(er) => Err(er),
    }
}

/// The ways an expression ends at `pos` after its left operand `lhs`.
proof fn lemma_infix_ends(cs: Seq<char>, pos: int, bp: int, lhs: ExprV)
    requires
        0 <= pos <= cs.len(),
    ensures
        ({
            let (k, s, e) = lexeme(cs, pos);
            &&& infix_power(k) matches Some((l, r)) ==> {
                &&& (l as int) < bp ==> parse_infix_at(cs, pos, bp, lhs) == Ok::<
                    (ExprV, int),
                    ParseError,
                >((lhs, pos))
                &&& ((l as int) >= bp && parse_expr_at(cs, e, r as int) is Err)
                    ==> parse_infix_at(cs, pos, bp, lhs) == Err::<(ExprV, int), ParseError>(
                    parse_expr_at(cs, e, r as int)->Err_0,
                )
            }
            &&& (infix_power(k) is None && ends_expr(k)) ==> parse_infix_at(cs, pos, bp, lhs)
                == Ok::<(ExprV, int), ParseError>((lhs, pos))
            &&& (infix_power(k) is None && !ends_expr(k)) ==> parse_infix_at(cs, pos, bp, lhs)
                == Err::<(ExprV, int), ParseError>(
                syntax(cs, s, SyntaxErrorKind::ExpectedOperator),
            )
        }),
{
    lemma_lexeme_bounds(cs, pos);
}

/// Line and column of character position `i`.
fn line_col_at(cs: &Vec<char>, i: usize) -> (r: (usize, usize))
    requires
        i <= cs.len(),
        source_fits(cs@),
    ensures
        r.0 == line_col(cs@, i as int).0,
        r.1 == line_col(cs@, i as int).1,
{
    let mut line: usize = 1;
    let mut col: usize = 1;
    let mut k: usize = 0;
    while k < i
        invariant
            k <= i <= cs.len(),
            source_fits(cs@),
            line == line_col(cs@, k as int).0,
            col == line_col(cs@, k as int).1,
            line <= k + 1,
            col <= k + 1,
        decreases i - k,
    {
        if cs[k] == '\n' {
            line = line + 1;
            col = 1;
        } else {
            col = col + 1;
        }
        k = k + 1;
    }
    (line, col)
}

/// Value of the digits from `s` to `e`, if it fits in `i64`.
fn digits_to_i64(cs: &Vec<char>, s: usize, e: usize) -> (r: Option<i64>)
    requires
        s <= e <= cs.len(),
        forall|j: int| s <= j < e ==> in_class(#[trigger] cs@[j], CharClass::Digit),
    ensures
        r matches Some(v) ==> v as int == digits_value(cs@.subrange(s as int, e as int)),
        r is None ==> digits_value(cs@.subrange(s as int, e as int)) > i64::MAX,
{
    let mut acc: u64 = 0;
    let mut big = false;
    let mut k: usize = s;
    while k < e
        invariant
            s <= k <= e <= cs.len(),
            forall|j: int| s <= j < e ==> in_class(#[trigger] cs@[j], CharClass::Digit),
            !big ==> acc as int == digits_value(cs@.subrange(s as int, k as int)),
            !big ==> acc <= i64::MAX,
            big ==> digits_value(cs@.subrange(s as int, k as int)) > i64::MAX,
        decreases e - k,
    {
        let ghost w = cs@.subrange(s as int, k as int + 1);
        assert(w.drop_last() =~= cs@.subrange(s as int, k as int));
        assert(w.last() == cs@[k as int]);
        assert(in_class(cs@[k as int], CharClass::Digit));
        let d = (cs[k] as u32 - 48) as u64;
        if !big {
            if acc > (9223372036854775807u64 - d) / 10 {
                big = true;
                assert(digits_value(w) > i64::MAX) by (nonlinear_arith)
                    requires
                        digits_value(w) == acc * 10 + d,
                        acc > (9223372036854775807u64 - d) / 10,
                        d <= 9,
                ;
            } else {
                assert(acc * 10 + d <= 9223372036854775807u64) by (nonlinear_arith)
                    requires
                        acc <= (9223372036854775807u64 - d) / 10,
                        d <= 9,
                ;
                acc = acc * 10 + d;
            }
        } else {
            assert(digits_value(w) > i64::MAX) by (nonlinear_arith)
                requires
                    digits_value(w) == digits_value(w.drop_last()) * 10 + ((w.last() as u32)
                        - 48) as nat,
                    digits_value(w.drop_last()) > i64::MAX,
            ;
        }
        k = k + 1;
    }
    if big {
        None
    } else {
        Some(acc as i64)
    }
}

/// The characters from `s` to `e` with escapes replaced.
fn unescape_range(cs: &Vec<char>, s: usize, e: usize) -> (r: String)
    requires
        s <= e <= cs.len(),
    ensures
        r@ == unescape(cs@.subrange(s as int, e as int)),
{
    let mut out: Vec<char> = Vec::new();
    let mut k: usize = s;
    while k < e
        invariant
            s <= k <= e <= cs.len(),
            unescape(cs@.subrange(s as int, e as int)) == out@ + unescape(
                cs@.subrange(k as int, e as int),
            ),
        decreases e - k,
    {
        let ghost w = cs@.subrange(k as int, e as int);
        if cs[k] == '\\' && k + 1 < e {
            assert(w.subrange(2, w.len() as int) =~= cs@.subrange(k + 2, e as int));
            out.push(cs[k + 1]);
            k = k + 2;
        } else {
            assert(w.subrange(1, w.len() as int) =~= cs@.subrange(k + 1, e as int));
            out.push(cs[k]);
            k = k + 1;
        }
        assert(unescape(cs@.subrange(s as int, e as int)) =~= out@ + unescape(
            cs@.subrange(k as int, e as int),
        ));
    }
    assert(out@ + unescape(cs@.subrange(e as int, e as int)) =~= out@);
    let n = out.len();
    crate::text::string_of(&out, 0, n)
}

/// A parser over one source text, with one token of lookahead.
pub struct Parser {
    chars: Vec<char>,
    pos: usize,
}

impl Parser {
    /// The characters of the source text.
    pub closed spec fn source(&self) -> Seq<char> {
        self.chars@
    }

    /// Character position of the next unread token (or of the whitespace
    /// before it).
    pub closed spec fn position(&self) -> int {
        self.pos as int
    }

    pub closed spec fn wf(&self) -> bool {
        source_fits(self.chars@) && self.pos <= self.chars@.len()
    }

    pub fn new(input: &str) -> (r: Self)
        requires
            source_fits(input@),
        ensures
            r.wf(),
            r.source() == input@,
            r.position() == 0,
    {
        Parser { chars: crate::text::chars_of(input), pos: 0 }
    }

    /// The kind of the next token, without consuming it; the end-of-input
    /// kind once the input is used up.
    pub fn peek(&self) -> (r: TokenKind)
        requires
            self.wf(),
        ensures
            r == lexeme(self.source(), self.position()).0,
    {
        lexeme_at(&self.chars, self.pos).0
    }

    /// Consumes the next token: its kind and character range.
    fn advance(&mut self) -> (r: (TokenKind, usize, usize))
        requires
            old(self).wf(),
        ensures
            final(self).wf(),
            final(self).source() == old(self).source(),
            r.0 == lexeme(old(self).source(), old(self).position()).0,
            r.1 == lexeme(old(self).source(), old(self).position()).1,
            r.2 == lexeme(old(self).source(), old(self).position()).2,
            final(self).position() == r.2,
            old(self).position() <= r.1 <= r.2,
    {
        proof {
            lemma_lexeme_bounds(self.chars@, self.pos as int);
        }
        let r = lexeme_at(&self.chars, self.pos);
        self.pos = r.2;
        r
    }

    /// Consumes and returns the next token, with its span in bytes.
    pub fn next(&mut self) -> (r: Token)
        requires
            old(self).wf(),
        ensures
            final(self).wf(),
            final(self).source() == old(self).source(),
            ({
                let (k, s, e) = lexeme(old(self).source(), old(self).position());
                &&& r == (Token { kind: k, span: byte_span(old(self).source(), s, e) })
                &&& final(self).position() == e
            }),
    {
        let (k, s, e) = self.advance();
        let start = crate::lexer::advance_bytes(&self.chars, 0, s, 0);
        let end = crate::lexer::advance_bytes(&self.chars, s, e, start);
        Token { kind: k, span: crate::token::Span { start, end } }
    }

    /// The syntax error `kind` at character position `at`.
    fn error_at(&self, at: usize, kind: SyntaxErrorKind) -> (r: ParseError)
        requires
            self.wf(),
            at <= self.chars@.len(),
        ensures
            r == syntax(self.source(), at as int, kind),
    {
        let (line, column) = line_col_at(&self.chars, at);
        ParseError::Syntax(SyntaxError { line, column, kind })
    }

    /// Consumes the next token, which must be of kind `expected`.
    pub fn consume(&mut self, expected: TokenKind) -> (r: Result<(), ParseError>)
        requires
            old(self).wf(),
        ensures
            final(self).wf(),
            final(self).source() == old(self).source(),
            match expect(old(self).source(), old(self).position(), expected) {
                Ok(q) => r is Ok && final(self).position() == q,
                Err(er) => r == Err::<(), ParseError>(er),
            },
            r is Ok && expected != TokenKind::Eof ==> old(self).position() < final(self).position()
                <= old(self).source().len(),
    {
        proof {
            lemma_lexeme_bounds(self.chars@, self.pos as int);
        }
        let (k, s, e) = self.advance();
        if k == expected {
            Ok(())
        } else {
            Err(self.error_at(s, SyntaxErrorKind::Expected(expected, k)))
        }
    }

    /// The expression of a literal or identifier token from `s` to `e`.
    fn parse_atom(&self, k: TokenKind, s: usize, e: usize, Ghost(at): Ghost<int>) -> (r: Result<
        Expr,
        ParseError,
    >)
        requires
            self.wf(),
            0 <= at <= self.source().len(),
            is_atom(k),
            lexeme(self.source(), at) == (k, s as int, e as int),
        ensures
            match atom(self.source(), k, s as int, e as int) {
                Ok(x) => r matches Ok(v) && v@ == x,
                Err(er) => r == Err::<Expr, ParseError>(er),
            },
    {
        proof {
            lemma_lexeme_bounds(self.chars@, at);
            lemma_run_members(self.chars@, s + 1, CharClass::Digit);
            lemma_run_bounds(self.chars@, s + 1, CharClass::Digit);
        }
        match k {
            TokenKind::IntLit => {
                match digits_to_i64(&self.chars, s, e) {
                    Some(v) => Ok(Expr::Literal(Lit::Int(v))),
                    None => Err(self.error_at(s, SyntaxErrorKind::IntegerTooLarge)),
                }
            },
            TokenKind::StringLit => {
                Ok(Expr::Literal(Lit::Str(unescape_range(&self.chars, s + 1, e - 1))))
            },
            TokenKind::True => Ok(Expr::Literal(Lit::Bool(true))),
            TokenKind::False => Ok(Expr::Literal(Lit::Bool(false))),
            _ => Ok(Expr::Ident(crate::text::string_of(&self.chars, s, e))),
        }
    }

    /// Parses an expression whose operators bind at least as tightly as
    /// `bp`.
    fn parse_expr(&mut self, bp: u8) -> (r: Result<Expr, ParseError>)
        requires
            old(self).wf(),
        ensures
            final(self).wf(),
            final(self).source() == old(self).source(),
            match parse_expr_at(old(self).source(), old(self).position(), bp as int) {
                Ok((x, p)) => r matches Ok(v) && v@ == x && final(self).position() == p,
                Err(er) => r == Err::<Expr, ParseError>(er),
            },
            r is Ok ==> old(self).position() < final(self).position() <= old(self).source().len(),
        decreases old(self).source().len() - old(self).position(),
    {
        let ghost src = self.chars@;
        let ghost pos0 = self.pos as int;
        proof {
            lemma_lexeme_bounds(src, pos0);
        }
        let (k, s, e) = lexeme_at(&self.chars, self.pos);
        let mut lhs: Expr;
        if k == TokenKind::Ident || k == TokenKind::Pop || k == TokenKind::IntLit || k
            == TokenKind::StringLit || k == TokenKind::True || k == TokenKind::False {
            match self.parse_atom(k, s, e, Ghost(pos0)) {
                Ok(x) => {
                    lhs = x;
                    self.pos = e;
                },
                Err(er) => {
                    return Err(er);
                },
            }
        } else if k == TokenKind::LeftParen {
            self.pos = e;
            match self.parse_expr(0) {
                Ok(x) => {
                    match self.consume(TokenKind::RightParen) {
                        Ok(()) => {
                            lhs = x;
                        },
                        Err(er) => {
                            return Err(er);
                        },
                    }
                },
                Err(er) => {
                    return Err(er);
                },
            }
        } else if let Some(power) = k.prefix_binding_power() {
            self.pos = e;
            match self.parse_expr(power) {
                Ok(x) => {
                    lhs = Expr::UnaryOp(k, Box::new(x));
                },
                Err(er) => {
                    return Err(er);
                },
            }
        } else if k == TokenKind::Eof {
            return Err(ParseError::UnexpectedEof);
        } else {
            return Err(self.error_at(s, SyntaxErrorKind::ExpectedExpression(k)));
        }
        loop
            invariant
                self.wf(),
                self.chars@ == src,
                src == old(self).source(),
                pos0 == old(self).position(),
                pos0 < self.pos <= src.len(),
                parse_expr_at(src, pos0, bp as int) == parse_infix_at(
                    src,
                    self.pos as int,
                    bp as int,
                    lhs@,
                ),
            decreases src.len() - self.pos,
        {
            proof {
                lemma_lexeme_bounds(src, self.pos as int);
            }
            let (op, s, e) = lexeme_at(&self.chars, self.pos);
            proof {
                lemma_infix_ends(src, self.pos as int, bp as int, lhs@);
            }
            match op.infix_binding_power() {
                Some((left, right)) => {
                    if left < bp {
                        return Ok(lhs);
                    }
                    self.pos = e;
                    match self.parse_expr(right) {
                        Ok(rhs) => {
                            lhs = Expr::BinaryOp(op, Box::new(lhs), Box::new(rhs));
                        },
                        Err(er) => {
                            return Err(er);
                        },
                    }
                },
                None => {
                    if op == TokenKind::Eof || op == TokenKind::RightParen || op
                        == TokenKind::Newline || op == TokenKind::Not {
                        return Ok(lhs);
                    }
                    let er = self.error_at(s, SyntaxErrorKind::ExpectedOperator);
                    return Err(er);
                },
            }
        }
    }

    /// Parses a whole expression.
    pub fn expr(&mut self) -> (r: Result<Expr, ParseError>)
        requires
            old(self).wf(),
        ensures
            final(self).wf(),
            final(self).source() == old(self).source(),
            match parse_expr_at(old(self).source(), old(self).position(), 0) {
                Ok((x, p)) => r matches Ok(v) && v@ == x && final(self).position() == p,
                Err(er) => r == Err::<Expr, ParseError>(er),
            },
            r is Ok ==> old(self).position() < final(self).position() <= old(self).source().len(),
    {
        self.parse_expr(0)
    }

    /// Ends a statement whose last part has been read: a newline must follow.
    fn end_line(&mut self, st: Stmt) -> (r: Result<Stmt, ParseError>)
        requires
            old(self).wf(),
        ensures
            final(self).wf(),
            final(self).source() == old(self).source(),
            match end_of_line(old(self).source(), old(self).position(), st@) {
                Ok((x, p)) => r matches Ok(v) && v@ == x && final(self).position() == p,
                Err(er) => r == Err::<Stmt, ParseError>(er),
            },
            r is Ok ==> old(self).position() < final(self).position() <= old(self).source().len(),
    {
        match self.consume(TokenKind::Newline) {
            Ok(()) => Ok(st),
            Err(er) => Err(er),
        }
    }

    /// Parses one statement and the newline that ends it.
    pub fn parse_stmt(&mut self) -> (r: Result<Stmt, ParseError>)
        requires
            old(self).wf(),
        ensures
            final(self).wf(),
            final(self).source() == old(self).source(),
            match parse_stmt_at(old(self).source(), old(self).position()) {
                Ok((x, p)) => r matches Ok(v) && v@ == x && final(self).position() == p,
                Err(er) => r == Err::<Stmt, ParseError>(er),
            },
            r is Ok ==> old(self).position() < final(self).position() <= old(self).source().len(),
    {
        let ghost src = self.chars@;
        let ghost pos0 = self.pos as int;
        proof {
            lemma_lexeme_bounds(src, pos0);
            reveal(parse_stmt_at);
        }
        let (k, s, e) = lexeme_at(&self.chars, self.pos);
        match k {
            TokenKind::SetKw => {
                self.pos = e;
                proof {
                    lemma_lexeme_bounds(src, e as int);
                }
                let (k2, s2, e2) = self.advance();
                if k2 == TokenKind::Ident || k2 == TokenKind::Pop {
                    let name = crate::text::string_of(&self.chars, s2, e2);
                    match self.expr() {
                        Ok(x) => self.end_line(Stmt::Assign(name, x)),
                        Err(er) => Err(er),
                    }
                } else {
                    Err(self.error_at(s2, SyntaxErrorKind::ExpectedIdentifier(k2)))
                }
            },
            TokenKind::Push | TokenKind::Check | TokenKind::Print => {
                self.pos = e;
                match self.expr() {
                    Ok(x) => {
                        let st = if k == TokenKind::Push {
                            Stmt::Push(x)
                        } else if k == TokenKind::Check {
                            Stmt::Check(x)
                        } else {
                            Stmt::Print(x)
                        };
                        self.end_line(st)
                    },
                    Err(er) => Err(er),
                }
            },
            TokenKind::Pop => {
                self.pos = e;
                self.end_line(Stmt::Pop)
            },
            TokenKind::Eof => Err(ParseError::UnexpectedEof),
            _ => Err(self.error_at(s, SyntaxErrorKind::ExpectedStatement(k))),
        }
    }
}

/// The models of a sequence of statements.
pub open spec fn stmt_views(v: Seq<Stmt>) -> Seq<StmtV> {
    v.map_values(|st: Stmt| st@)
}

/// Statements `done` put before the outcome of parsing the rest.
pub open spec fn prepend(done: Seq<StmtV>, rest: Result<Seq<StmtV>, ParseError>) -> Result<
    Seq<StmtV>,
    ParseError,
> {
    match rest {
        Ok(sts) => Ok(done + sts),
        Err(er) => Err(er),
    }
}

pub proof fn lemma_program_step(cs: Seq<char>, pos: int)
    requires
        0 <= pos <= cs.len(),
    ensures
        parse_stmt_at(cs, pos) matches Ok((st, p)) ==> (moved_on(cs, pos, p) ==> parse_program_at(
            cs,
            pos,
        ) == prepend(seq![st], parse_program_at(cs, p))),
        parse_stmt_at(cs, pos) == Err::<(StmtV, int), ParseError>(ParseError::UnexpectedEof)
            ==> parse_program_at(cs, pos) == Ok::<Seq<StmtV>, ParseError>(Seq::empty()),
        parse_stmt_at(cs, pos) matches Err(er) ==> (er != ParseError::UnexpectedEof
            ==> parse_program_at(cs, pos) == Err::<Seq<StmtV>, ParseError>(er)),
{
}

proof fn lemma_prepend_twice(a: Seq<StmtV>, b: Seq<StmtV>, rest: Result<Seq<StmtV>, ParseError>)
    ensures
        prepend(a, prepend(b, rest)) == prepend(a + b, rest),
{
    if let Ok(sts) = rest {
        assert(a + (b + sts) =~= (a + b) + sts);
    }
}

/// Parses a whole program: statements, one per line, until the input ends
/// where a statement or an expression is expected. Any other error fails
/// the whole parse.
pub fn parse_program(input: &str) -> (r: Result<Vec<Stmt>, ParseError>)
    requires
        source_fits(input@),
    ensures
        match parse_program_at(input@, 0) {
            Ok(sts) => r matches Ok(v) && stmt_views(v@) == sts,
            Err(er) => r == Err::<Vec<Stmt>, ParseError>(er),
        },
{
    let mut parser = Parser::new(input);
    let mut stmts: Vec<Stmt> = Vec::new();
    let ghost src = input@;
    assert(stmt_views(stmts@) =~= Seq::<StmtV>::empty());
    proof {
        lemma_prepend_twice(Seq::empty(), Seq::empty(), parse_program_at(src, 0));
        assert(Seq::<StmtV>::empty() + Seq::<StmtV>::empty() =~= Seq::<StmtV>::empty());
        if let Ok(sts) = parse_program_at(src, 0) {
            assert(Seq::<StmtV>::empty() + sts =~= sts);
        }
    }
    loop
        invariant
            parser.wf(),
            parser.source() == src,
            src == input@,
            parse_program_at(src, 0) == prepend(stmt_views(stmts@), parse_program_at(src, parser.position())),
        decreases src.len() - parser.position(),
    {
        let ghost at = parser.position();
        let ghost before = stmt_views(stmts@);
        proof {
            lemma_program_step(src, at);
        }
        match parser.parse_stmt() {
            Ok(st) => {
                let ghost sv = st@;
                stmts.push(st);
                assert(stmt_views(stmts@) =~= before + seq![sv]);
                proof {
                    lemma_prepend_twice(before, seq![sv], parse_program_at(src, parser.position()));
                }
            },
            Err(ParseError::UnexpectedEof) => {
                assert(before + Seq::<StmtV>::empty() =~= before);
                return Ok(stmts);
            },
            Err(er) => {
                return Err(er);
            },
        }
    }
}

/// What a syntax error says was wrong.
pub open spec fn syntax_text(k: SyntaxErrorKind) -> Seq<char> {
    match k {
        SyntaxErrorKind::ExpectedExpression(got) => "Expected expression, got "@ + kind_name(got),
        SyntaxErrorKind::ExpectedOperator => "Expected operator or terminator"@,
        SyntaxErrorKind::Expected(want, got) => "Expected "@ + kind_name(want) + ", got "@
            + kind_name(got),
        SyntaxErrorKind::ExpectedStatement(got) => "Expected statement, got "@ + kind_name(got),
        SyntaxErrorKind::ExpectedIdentifier(got) => "Expected identifier, got "@ + kind_name(
            got,
        ),
        SyntaxErrorKind::IntegerTooLarge => "Integer literal out of range"@,
    }
}

/// The report of a parse error: `Error at <line>:<column> = <message>`.
pub open spec fn parse_error_text(e: ParseError) -> Seq<char> {
    match e {
        ParseError::UnexpectedEof => "Error: Unexpected EOF"@,
        ParseError::Syntax(s) => "Error at "@ + digits(s.line as nat) + ":"@ + digits(
            s.column as nat,
        ) + " = "@ + syntax_text(s.kind),
    }
}

impl ParseError {
    /// The report of this error.
    pub fn message(&self) -> (r: String)
        ensures
            r@ == parse_error_text(*self),
    {
        let mut buf: Vec<char> = Vec::new();
        match self {
            ParseError::UnexpectedEof => push_str(&mut buf, "Error: Unexpected EOF"),
            ParseError::Syntax(s) => {
                push_str(&mut buf, "Error at ");
                push_digits(&mut buf, s.line as u64);
                push_str(&mut buf, ":");
                push_digits(&mut buf, s.column as u64);
                push_str(&mut buf, " = ");
                match s.kind {
                    SyntaxErrorKind::ExpectedExpression(got) => {
                        push_str(&mut buf, "Expected expression, got ");
                        push_str(&mut buf, got.name());
                    },
                    SyntaxErrorKind::ExpectedOperator => {
                        push_str(&mut buf, "Expected operator or terminator");
                    },
                    SyntaxErrorKind::Expected(want, got) => {
                        push_str(&mut buf, "Expected ");
                        push_str(&mut buf, want.name());
                        push_str(&mut buf, ", got ");
                        push_str(&mut buf, got.name());
                    },
                    SyntaxErrorKind::ExpectedStatement(got) => {
                        push_str(&mut buf, "Expected statement, got ");
                        push_str(&mut buf, got.name());
                    },
                    SyntaxErrorKind::ExpectedIdentifier(got) => {
                        push_str(&mut buf, "Expected identifier, got ");
                        push_str(&mut buf, got.name());
                    },
                    SyntaxErrorKind::IntegerTooLarge => {
                        push_str(&mut buf, "Integer literal out of range");
                    },
                }
            },
        }
        assert(buf@ =~= parse_error_text(*self));
        let n = buf.len();
        let r = string_of(&buf, 0, n);
        assert(buf@.subrange(0, n as int) =~= buf@);
        r
    }
}

} // verus!
