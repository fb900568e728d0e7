//! The canonical source form of statements, and the proof that parsing it
//! gives the statement back.
use vstd::prelude::*;
use crate::ast::{stmt_text, ExprV, LitV, StmtV};
use crate::lexer::{in_class, keyword_of, lexeme, scan, string_rest, CharClass};
use crate::laws::{lemma_digits_are_digits, lemma_digits_value, lemma_run_exact};
use crate::parser::{
    atom, expect, lemma_program_step, parse_expr_at, parse_infix_at,
    parse_program_at, parse_stmt_at, unescape, ParseError,
};
use crate::text::digits;
use crate::token::{infix_power, kind_name, prefix_power, TokenKind};

verus! {

/// A string's body with a backslash put before each `"` and `\`.
pub open spec fn escape(s: Seq<char>) -> Seq<char>
    decreases s.len(),
{
    if s.len() == 0 {
        Seq::empty()
    } else {
        let c = s[0];
        (if c == '"' || c == '\\' {
            seq!['\\', c]
        } else {
            seq![c]
        }) + escape(s.subrange(1, s.len() as int))
    }
}

/// `w` stands in `cs` from position `p` on.
pub open spec fn placed(cs: Seq<char>, p: int, w: Seq<char>) -> bool {
    &&& 0 <= p
    &&& p + w.len() <= cs.len()
    &&& forall|k: int| 0 <= k < w.len() ==> cs[p + k] == #[trigger] w[k]
}

pub proof fn lemma_unescape_escape(s: Seq<char>)
    ensures
        unescape(escape(s)) == s,
    decreases s.len(),
{
    if s.len() > 0 {
        let c = s[0];
        let rest = s.subrange(1, s.len() as int);
        let w = escape(s);
        lemma_unescape_escape(rest);
        if c == '"' || c == '\\' {
            assert(w.subrange(2, w.len() as int) =~= escape(rest));
        } else {
            assert(w.subrange(1, w.len() as int) =~= escape(rest));
        }
        assert(seq![c] + rest =~= s);
    }
}

/// An escaped body followed by a quote closes the literal right after that
/// quote.
pub proof fn lemma_string_rest_escape(cs: Seq<char>, i: int, s: Seq<char>)
    requires
        placed(cs, i, escape(s)),
        i + escape(s).len() < cs.len(),
        cs[i + escape(s).len()] == '"',
    ensures
        string_rest(cs, i) == Some((escape(s).len() + 1) as nat),
    decreases s.len(),
{
    if s.len() > 0 {
        let c = s[0];
        let rest = s.subrange(1, s.len() as int);
        let w = escape(s);
        if c == '"' || c == '\\' {
            assert(cs[i] == w[0]);
            assert(cs[i + 1] == w[1]);
            assert forall|k: int| 0 <= k < escape(rest).len() implies cs[i + 2 + k]
                == #[trigger] escape(rest)[k] by {
                assert(w[2 + k] == escape(rest)[k]);
            }
            lemma_string_rest_escape(cs, i + 2, rest);
        } else {
            assert(cs[i] == w[0]);
            assert forall|k: int| 0 <= k < escape(rest).len() implies cs[i + 1 + k]
                == #[trigger] escape(rest)[k] by {
                assert(w[1 + k] == escape(rest)[k]);
            }
            lemma_string_rest_escape(cs, i + 1, rest);
        }
    }
}

/// Each keyword is recognised as itself.
pub proof fn lemma_keywords()
    ensures
        keyword_of("set"@) == TokenKind::SetKw,
        keyword_of("push"@) == TokenKind::Push,
        keyword_of("pop"@) == TokenKind::Pop,
        keyword_of("check"@) == TokenKind::Check,
        keyword_of("print"@) == TokenKind::Print,
        keyword_of("true"@) == TokenKind::True,
        keyword_of("false"@) == TokenKind::False,
        keyword_of("and"@) == TokenKind::And,
        keyword_of("or"@) == TokenKind::Or,
        keyword_of("not"@) == TokenKind::Not,
{
    reveal_strlit("set");
    reveal_strlit("push");
    reveal_strlit("pop");
    reveal_strlit("check");
    reveal_strlit("print");
    reveal_strlit("true");
    reveal_strlit("false");
    reveal_strlit("and");
    reveal_strlit("or");
    reveal_strlit("not");
    assert("push"@.len() != "set"@.len());
    assert("pop"@[0] != "set"@[0]);
    assert("pop"@.len() != "push"@.len());
    assert("check"@.len() != "set"@.len());
    assert("check"@.len() != "push"@.len());
    assert("check"@.len() != "pop"@.len());
    assert("print"@.len() != "set"@.len());
    assert("print"@.len() != "push"@.len());
    assert("print"@.len() != "pop"@.len());
    assert("print"@[0] != "check"@[0]);
    assert("true"@.len() != "set"@.len());
    assert("true"@[0] != "push"@[0]);
    assert("true"@.len() != "pop"@.len());
    assert("true"@.len() != "check"@.len());
    assert("true"@.len() != "print"@.len());
    assert("false"@.len() != "set"@.len());
    assert("false"@.len() != "push"@.len());
    assert("false"@.len() != "pop"@.len());
    assert("false"@[0] != "check"@[0]);
    assert("false"@[0] != "print"@[0]);
    assert("false"@.len() != "true"@.len());
    assert("and"@[0] != "set"@[0]);
    assert("and"@.len() != "push"@.len());
    assert("and"@[0] != "pop"@[0]);
    assert("and"@.len() != "check"@.len());
    assert("and"@.len() != "print"@.len());
    assert("and"@.len() != "true"@.len());
    assert("and"@.len() != "false"@.len());
    assert("or"@.len() != "set"@.len());
    assert("or"@.len() != "push"@.len());
    assert("or"@.len() != "pop"@.len());
    assert("or"@.len() != "check"@.len());
    assert("or"@.len() != "print"@.len());
    assert("or"@.len() != "true"@.len());
    assert("or"@.len() != "false"@.len());
    assert("or"@.len() != "and"@.len());
    assert("not"@[0] != "set"@[0]);
    assert("not"@.len() != "push"@.len());
    assert("not"@[0] != "pop"@[0]);
    assert("not"@.len() != "check"@.len());
    assert("not"@.len() != "print"@.len());
    assert("not"@.len() != "true"@.len());
    assert("not"@.len() != "false"@.len());
    assert("not"@[0] != "and"@[0]);
    assert("not"@.len() != "or"@.len());
}

/// Only spaces stand from `q` up to `p`, and `p` starts a token.
pub open spec fn spaces_then(cs: Seq<char>, q: int, p: int) -> bool {
    &&& 0 <= q <= p < cs.len()
    &&& forall|k: int| q <= k < p ==> cs[k] == ' '
    &&& !in_class(cs[p], CharClass::Blank)
}

pub proof fn lemma_skip_spaces(cs: Seq<char>, q: int, p: int)
    requires
        spaces_then(cs, q, p),
    ensures
        lexeme(cs, q) == (scan(cs, p).0, p, p + scan(cs, p).1),
{
    lemma_run_exact(cs, q, p, CharClass::Blank);
}

/// A word of identifier characters at `p`, ended by another character.
pub proof fn lemma_lexeme_word(cs: Seq<char>, q: int, p: int, w: Seq<char>)
    requires
        spaces_then(cs, q, p),
        placed(cs, p, w),
        w.len() >= 1,
        in_class(w[0], CharClass::IdentStart),
        forall|k: int| 0 <= k < w.len() ==> in_class(#[trigger] w[k], CharClass::IdentRest),
        p + w.len() < cs.len(),
        !in_class(cs[p + w.len()], CharClass::IdentRest),
    ensures
        lexeme(cs, q) == (keyword_of(w), p, p + w.len()),
{
    lemma_skip_spaces(cs, q, p);
    assert(cs[p] == w[0]);
    assert forall|k: int| p + 1 <= k < p + w.len() implies in_class(
        #[trigger] cs[k],
        CharClass::IdentRest,
    ) by {
        assert(cs[k] == w[k - p]);
    }
    lemma_run_exact(cs, p + 1, p + w.len(), CharClass::IdentRest);
    assert(cs.subrange(p, p + w.len()) =~= w);
}

/// An operator's name at `p`, followed by a space.
pub proof fn lemma_lexeme_op(cs: Seq<char>, q: int, p: int, op: TokenKind)
    requires
        infix_power(op) is Some || prefix_power(op) is Some,
        spaces_then(cs, q, p),
        placed(cs, p, kind_name(op)),
        p + kind_name(op).len() < cs.len(),
        cs[p + kind_name(op).len()] == ' ',
    ensures
        lexeme(cs, q) == (op, p, p + kind_name(op).len()),
{
    lemma_skip_spaces(cs, q, p);
    lemma_keywords();
    reveal_strlit("+");
    reveal_strlit("-");
    reveal_strlit("*");
    reveal_strlit("/");
    reveal_strlit("<");
    reveal_strlit(">");
    reveal_strlit("<=");
    reveal_strlit(">=");
    reveal_strlit("!=");
    reveal_strlit("==");
    reveal_strlit("and");
    reveal_strlit("or");
    reveal_strlit("not");
    let w = kind_name(op);
    assert(cs[p] == w[0]);
    if w.len() >= 2 {
        assert(cs[p + 1] == w[1]);
    }
    if op == TokenKind::And || op == TokenKind::Or || op == TokenKind::Not {
        if op == TokenKind::Or {
            assert(w.len() == 2);
        } else {
            assert(w.len() == 3);
            assert(in_class(w[2], CharClass::IdentRest));
        }
        assert(in_class(w[0], CharClass::IdentStart));
        assert(in_class(w[1], CharClass::IdentRest));
        assert forall|k: int| 0 <= k < w.len() implies in_class(
            #[trigger] w[k],
            CharClass::IdentRest,
        ) by {
            if k == 0 {
            } else if k == 1 {
            } else {
                assert(k == 2);
            }
        }
        lemma_lexeme_word(cs, q, p, w);
    }
}

/// A name that parses as an identifier: identifier characters, not starting
/// with a digit, and no keyword but `pop`.
pub open spec fn is_name(n: Seq<char>) -> bool {
    &&& n.len() >= 1
    &&& in_class(n[0], CharClass::IdentStart)
    &&& forall|k: int| 0 <= k < n.len() ==> in_class(#[trigger] n[k], CharClass::IdentRest)
    &&& (keyword_of(n) == TokenKind::Ident || keyword_of(n) == TokenKind::Pop)
}

/// Expressions that have a canonical source form: integer literals are not
/// negative (a minus sign is an operator), names are names, and operators
/// stand where they can.
pub open spec fn canonical(e: ExprV) -> bool
    decreases e,
{
    match e {
        ExprV::Literal(LitV::Int(n)) => n >= 0,
        ExprV::Literal(_) => true,
        ExprV::Ident(n) => is_name(n),
        ExprV::BinaryOp(op, l, r) => infix_power(op) is Some && canonical(*l) && canonical(*r),
        ExprV::UnaryOp(op, x) => prefix_power(op) is Some && canonical(*x),
    }
}

/// The canonical source form of an expression: every binary operation in
/// parentheses, tokens one space apart, strings escaped.
pub open spec fn expr_source(e: ExprV) -> Seq<char>
    decreases e,
{
    match e {
        ExprV::Literal(LitV::Int(n)) => digits(n as nat),
        ExprV::Literal(LitV::Str(s)) => seq!['"'] + escape(s) + seq!['"'],
        ExprV::Literal(LitV::Bool(b)) => if b {
            "true"@
        } else {
            "false"@
        },
        ExprV::Ident(n) => n,
        ExprV::BinaryOp(op, l, r) => seq!['('] + expr_source(*l) + seq![' '] + kind_name(op)
            + seq![' '] + expr_source(*r) + seq![')'],
        ExprV::UnaryOp(op, x) => kind_name(op) + seq![' '] + expr_source(*x),
    }
}

/// What may come after an expression inside a statement: a space, `)` or a
/// newline, starting a token that ends it or an infix operator.
pub open spec fn follows(cs: Seq<char>, q: int) -> bool {
    &&& 0 <= q < cs.len()
    &&& (cs[q] == ' ' || cs[q] == ')' || cs[q] == '\n')
    &&& (infix_power(lexeme(cs, q).0) is Some || lexeme(cs, q).0 == TokenKind::RightParen
        || lexeme(cs, q).0 == TokenKind::Newline)
}

/// The canonical source of an expression is not empty and does not start
/// with a blank.
pub proof fn lemma_source_start(e: ExprV)
    requires
        canonical(e),
    ensures
        expr_source(e).len() >= 1,
        !in_class(expr_source(e)[0], CharClass::Blank),
    decreases e,
{
    reveal_strlit("true");
    reveal_strlit("false");
    reveal_strlit("-");
    reveal_strlit("not");
    match e {
        ExprV::Literal(LitV::Int(n)) => {
            lemma_digits_are_digits(n as nat);
        },
        ExprV::UnaryOp(op, x) => {
            lemma_source_start(*x);
        },
        ExprV::BinaryOp(op, l, r) => {
            lemma_source_start(*l);
        },
        _ => {},
    }
}

/// A literal or a name in canonical form is read as one token.
pub proof fn lemma_parse_atom(cs: Seq<char>, q: int, p: int, e: ExprV, bp: int)
    requires
        canonical(e),
        e is Literal || e is Ident,
        spaces_then(cs, q, p),
        placed(cs, p, expr_source(e)),
        follows(cs, p + expr_source(e).len()),
    ensures
        parse_expr_at(cs, q, bp) == parse_infix_at(cs, p + expr_source(e).len(), bp, e),
{
    let w = expr_source(e);
    let end = p + w.len();
    lemma_skip_spaces(cs, q, p);
    lemma_keywords();
    reveal_strlit("true");
    reveal_strlit("false");
    assert(cs[p] == w[0]);
    match e {
        ExprV::Literal(LitV::Int(n)) => {
            lemma_digits_are_digits(n as nat);
            lemma_digits_value(n as nat);
            assert forall|k: int| p + 1 <= k < end implies in_class(
                #[trigger] cs[k],
                CharClass::Digit,
            ) by {
                assert(cs[k] == w[k - p]);
            }
            lemma_run_exact(cs, p + 1, end, CharClass::Digit);
            assert(cs.subrange(p, end) =~= w);
            assert(lexeme(cs, q) == (TokenKind::IntLit, p, end));
            assert(atom(cs, TokenKind::IntLit, p, end) == Ok::<ExprV, ParseError>(e));
        },
        ExprV::Literal(LitV::Str(t)) => {
            let body = escape(t);
            assert forall|k: int| 0 <= k < body.len() implies cs[p + 1 + k] == #[trigger] body[k] by {
                assert(w[1 + k] == body[k]);
            }
            assert(cs[end - 1] == w[w.len() - 1]);
            lemma_string_rest_escape(cs, p + 1, t);
            assert(lexeme(cs, q) == (TokenKind::StringLit, p, end));
            assert(cs.subrange(p + 1, end - 1) =~= body);
            lemma_unescape_escape(t);
            assert(atom(cs, TokenKind::StringLit, p, end) == Ok::<ExprV, ParseError>(e));
        },
        ExprV::Literal(LitV::Bool(b)) => {
            assert forall|k: int| 0 <= k < w.len() implies in_class(
                #[trigger] w[k],
                CharClass::IdentRest,
            ) by {
                if b {
                    assert(0 <= k < 4);
                } else {
                    assert(0 <= k < 5);
                }
            }
            lemma_lexeme_word(cs, q, p, w);
        },
        ExprV::Ident(n) => {
            lemma_lexeme_word(cs, q, p, w);
            assert(cs.subrange(p, end) =~= n);
        },
        _ => {},
    }
}

/// The canonical source of an expression, followed by what may follow it,
/// parses back to the expression, wherever it stands and whatever binding
/// power the parse starts from.
pub proof fn lemma_parse_source(cs: Seq<char>, q: int, p: int, e: ExprV, bp: int)
    requires
        canonical(e),
        0 <= bp,
        spaces_then(cs, q, p),
        placed(cs, p, expr_source(e)),
        follows(cs, p + expr_source(e).len()),
    ensures
        parse_expr_at(cs, q, bp) == parse_infix_at(cs, p + expr_source(e).len(), bp, e),
    decreases e, 1int,
{
    match e {
        ExprV::UnaryOp(_, _) => lemma_parse_unary(cs, q, p, e, bp),
        ExprV::BinaryOp(_, _, _) => lemma_parse_binary(cs, q, p, e, bp),
        _ => lemma_parse_atom(cs, q, p, e, bp),
    }
}

proof fn lemma_parse_unary(cs: Seq<char>, q: int, p: int, e: ExprV, bp: int)
    requires
        canonical(e),
        e is UnaryOp,
        0 <= bp,
        spaces_then(cs, q, p),
        placed(cs, p, expr_source(e)),
        follows(cs, p + expr_source(e).len()),
    ensures
        parse_expr_at(cs, q, bp) == parse_infix_at(cs, p + expr_source(e).len(), bp, e),
    decreases e, 0int,
{
    let w = expr_source(e);
    let end = p + w.len();
    if let ExprV::UnaryOp(op, x) = e {
        let n = kind_name(op);
        let xs = expr_source(*x);
        let b = p + n.len() + 1;
        assert(w == n + seq![' '] + xs);
        assert forall|k: int| 0 <= k < n.len() implies cs[p + k] == #[trigger] n[k] by {
            assert(w[k] == n[k]);
        }
        assert(cs[p + n.len()] == w[n.len() as int]);
        assert forall|k: int| 0 <= k < xs.len() implies cs[b + k] == #[trigger] xs[k] by {
            assert(w[n.len() + 1 + k] == xs[k]);
        }
        lemma_source_start(*x);
        assert(cs[b] == xs[0]);
        reveal_strlit("-");
        reveal_strlit("not");
        assert(!in_class(cs[p], CharClass::Blank));
        lemma_lexeme_op(cs, q, p, op);
        let pbp = prefix_power(op)->0 as int;
        lemma_parse_source(cs, b - 1, b, *x, pbp);
        lemma_lexeme_bounds_at(cs, end);
        assert(parse_infix_at(cs, end, pbp, *x) == Ok::<(ExprV, int), ParseError>((*x, end)));
        assert(parse_expr_at(cs, p + n.len(), pbp) == Ok::<(ExprV, int), ParseError>(
            (*x, end),
        ));
        crate::lexer::lemma_lexeme_bounds(cs, q);
        assert(parse_expr_at(cs, q, bp) == parse_infix_at(
            cs,
            end,
            bp,
            ExprV::UnaryOp(op, Box::new(*x)),
        ));
    }
}

proof fn lemma_parse_binary(cs: Seq<char>, q: int, p: int, e: ExprV, bp: int)
    requires
        canonical(e),
        e is BinaryOp,
        0 <= bp,
        spaces_then(cs, q, p),
        placed(cs, p, expr_source(e)),
        follows(cs, p + expr_source(e).len()),
    ensures
        parse_expr_at(cs, q, bp) == parse_infix_at(cs, p + expr_source(e).len(), bp, e),
    decreases e, 0int,
{
    let w = expr_source(e);
    let end = p + w.len();
    if let ExprV::BinaryOp(op, l, r) = e {
        let ls = expr_source(*l);
        let n = kind_name(op);
        let rs = expr_source(*r);
        let a = p + 1;
        let el = a + ls.len();
        let s_op = el + 1;
        let e_op = s_op + n.len();
        let b = e_op + 1;
        let er = b + rs.len();
        assert(w == seq!['('] + ls + seq![' '] + n + seq![' '] + rs + seq![')']);
        assert(end == er + 1);
        assert(cs[p] == w[0]);
        assert forall|k: int| 0 <= k < ls.len() implies cs[a + k] == #[trigger] ls[k] by {
            assert(w[1 + k] == ls[k]);
        }
        assert(cs[el] == w[1 + ls.len() as int]);
        assert forall|k: int| 0 <= k < n.len() implies cs[s_op + k] == #[trigger] n[k] by {
            assert(w[2 + ls.len() + k] == n[k]);
        }
        assert(cs[e_op] == w[2 + ls.len() as int + n.len() as int]);
        assert forall|k: int| 0 <= k < rs.len() implies cs[b + k] == #[trigger] rs[k] by {
            assert(w[3 + ls.len() + n.len() + k] == rs[k]);
        }
        assert(cs[er] == w[3 + ls.len() as int + n.len() as int + rs.len() as int]);
        lemma_source_start(*l);
        lemma_source_start(*r);
        lemma_op_start(op);
        assert(cs[s_op] == n[0]);
        lemma_lexeme_op(cs, el, s_op, op);
        lemma_skip_spaces(cs, q, p);
        lemma_skip_spaces(cs, er, er);
        let (lb, rb) = infix_power(op)->0;
        lemma_parse_source(cs, a, a, *l, 0);
        lemma_parse_source(cs, e_op, b, *r, rb as int);
        lemma_lexeme_bounds_at(cs, end);
        assert(parse_infix_at(cs, er, rb as int, *r) == Ok::<(ExprV, int), ParseError>(
            (*r, er),
        ));
        let bin = ExprV::BinaryOp(op, Box::new(*l), Box::new(*r));
        assert(parse_infix_at(cs, er, 0, bin) == Ok::<(ExprV, int), ParseError>((bin, er)));
        crate::lexer::lemma_lexeme_bounds(cs, el);
        assert(parse_infix_at(cs, el, 0, *l) == Ok::<(ExprV, int), ParseError>((bin, er)));
        assert(parse_expr_at(cs, a, 0) == Ok::<(ExprV, int), ParseError>((bin, er)));
        assert(expect(cs, er, TokenKind::RightParen) == Ok::<int, ParseError>(end));
        crate::lexer::lemma_lexeme_bounds(cs, q);
        assert(parse_expr_at(cs, q, bp) == parse_infix_at(cs, end, bp, bin));
    }
}

/// An operator's name is not empty and does not start with a blank.
proof fn lemma_op_start(op: TokenKind)
    requires
        infix_power(op) is Some || prefix_power(op) is Some,
    ensures
        kind_name(op).len() >= 1,
        !in_class(kind_name(op)[0], CharClass::Blank),
{
    reveal_strlit("+");
    reveal_strlit("-");
    reveal_strlit("*");
    reveal_strlit("/");
    reveal_strlit("<");
    reveal_strlit(">");
    reveal_strlit("<=");
    reveal_strlit(">=");
    reveal_strlit("!=");
    reveal_strlit("==");
    reveal_strlit("and");
    reveal_strlit("or");
    reveal_strlit("not");
}

proof fn lemma_lexeme_bounds_at(cs: Seq<char>, i: int)
    requires
        0 <= i <= cs.len(),
    ensures
        i <= lexeme(cs, i).1 <= lexeme(cs, i).2 <= cs.len(),
{
    crate::lexer::lemma_lexeme_bounds(cs, i);
}

/// Statements that have a canonical source form.
pub open spec fn canonical_stmt(s: StmtV) -> bool {
    match s {
        StmtV::Assign(n, e) => is_name(n) && canonical(e),
        StmtV::Push(e) => canonical(e),
        StmtV::Check(e) => canonical(e),
        StmtV::Pop => true,
        StmtV::Print(e) => canonical(e),
    }
}

/// The keyword that starts a statement.
pub open spec fn stmt_keyword(s: StmtV) -> Seq<char> {
    match s {
        StmtV::Assign(_, _) => "set"@,
        StmtV::Push(_) => "push"@,
        StmtV::Check(_) => "check"@,
        StmtV::Pop => "pop"@,
        StmtV::Print(_) => "print"@,
    }
}

/// The canonical source line of a statement, such as `set x (1 + 2)` and
/// its newline.
pub open spec fn stmt_source(s: StmtV) -> Seq<char> {
    match s {
        StmtV::Assign(n, e) => "set"@ + seq![' '] + n + seq![' '] + expr_source(e) + seq!['\n'],
        StmtV::Push(e) => "push"@ + seq![' '] + expr_source(e) + seq!['\n'],
        StmtV::Check(e) => "check"@ + seq![' '] + expr_source(e) + seq!['\n'],
        StmtV::Pop => "pop"@ + seq!['\n'],
        StmtV::Print(e) => "print"@ + seq![' '] + expr_source(e) + seq!['\n'],
    }
}

/// An expression in canonical form from `p` on, ended by the newline at
/// `end`, is the whole expression of its statement.
proof fn lemma_expr_to_newline(cs: Seq<char>, q: int, p: int, e: ExprV)
    requires
        canonical(e),
        spaces_then(cs, q, p),
        placed(cs, p, expr_source(e)),
        p + expr_source(e).len() < cs.len(),
        cs[p + expr_source(e).len()] == '\n',
    ensures
        parse_expr_at(cs, q, 0) == Ok::<(ExprV, int), ParseError>(
            (e, p + expr_source(e).len()),
        ),
        lexeme(cs, p + expr_source(e).len()) == (
            TokenKind::Newline,
            p + expr_source(e).len(),
            p + expr_source(e).len() + 1,
        ),
{
    let end = p + expr_source(e).len();
    lemma_skip_spaces(cs, end, end);
    lemma_parse_source(cs, q, p, e, 0);
    crate::lexer::lemma_lexeme_bounds(cs, end);
}

/// The keyword of a statement at the start of its source.
proof fn lemma_stmt_keyword(s: StmtV)
    requires
        canonical_stmt(s),
    ensures
        ({
            let cs = stmt_source(s);
            let w = stmt_keyword(s);
            &&& w.len() >= 3
            &&& placed(cs, 0, w)
            &&& w.len() < cs.len()
            &&& lexeme(cs, 0) == (
                keyword_of(w),
                0int,
                w.len() as int,
            )
            &&& keyword_of(w) == match s {
                StmtV::Assign(_, _) => TokenKind::SetKw,
                StmtV::Push(_) => TokenKind::Push,
                StmtV::Check(_) => TokenKind::Check,
                StmtV::Pop => TokenKind::Pop,
                StmtV::Print(_) => TokenKind::Print,
            }
        }),
{
    let cs = stmt_source(s);
    let w = stmt_keyword(s);
    lemma_keywords();
    reveal_strlit("set");
    reveal_strlit("push");
    reveal_strlit("check");
    reveal_strlit("pop");
    reveal_strlit("print");
    assert forall|k: int| 0 <= k < w.len() implies cs[k] == #[trigger] w[k] by {}
    assert forall|k: int| 0 <= k < w.len() implies in_class(
        #[trigger] w[k],
        CharClass::IdentRest,
    ) by {
        assert(0 <= k < 5);
    }
    assert(cs[w.len() as int] == ' ' || cs[w.len() as int] == '\n');
    lemma_lexeme_word(cs, 0, 0, w);
}

/// The one statement of a canonical source line.
proof fn lemma_parse_stmt_source(s: StmtV)
    requires
        canonical_stmt(s),
    ensures
        parse_stmt_at(stmt_source(s), 0) == Ok::<(StmtV, int), ParseError>(
            (s, stmt_source(s).len() as int),
        ),
{
    let cs = stmt_source(s);
    let w = stmt_keyword(s);
    lemma_stmt_keyword(s);
    reveal(parse_stmt_at);
    let k = w.len() as int;
    match s {
        StmtV::Assign(n, e) => {
            let xs = expr_source(e);
            let p = k + 1 + n.len() + 1;
            assert(cs == w + seq![' '] + n + seq![' '] + xs + seq!['\n']);
            assert(cs[k] == ' ');
            assert forall|j: int| 0 <= j < n.len() implies cs[k + 1 + j] == #[trigger] n[j] by {
                assert(cs[k + 1 + j] == n[j]);
            }
            assert(cs[k + 1 + n.len()] == ' ');
            assert forall|j: int| 0 <= j < xs.len() implies cs[p + j] == #[trigger] xs[j] by {
                assert(cs[p + j] == xs[j]);
            }
            assert(cs[p + xs.len()] == '\n');
            lemma_source_start(e);
            assert(cs[p] == xs[0]);
            lemma_lexeme_word(cs, k, k + 1, n);
            assert(cs.subrange(k + 1, k + 1 + n.len()) =~= n);
            lemma_expr_to_newline(cs, p - 1, p, e);
        },
        StmtV::Pop => {
            assert(cs[k] == '\n');
            lemma_skip_spaces(cs, k, k);
        },
        _ => {
            let e = match s {
                StmtV::Push(e) => e,
                StmtV::Check(e) => e,
                StmtV::Print(e) => e,
                _ => arbitrary(),
            };
            let xs = expr_source(e);
            let p = k + 1;
            assert(cs == w + seq![' '] + xs + seq!['\n']);
            assert(cs[k] == ' ');
            assert forall|j: int| 0 <= j < xs.len() implies cs[p + j] == #[trigger] xs[j] by {
                assert(cs[p + j] == xs[j]);
            }
            assert(cs[p + xs.len()] == '\n');
            lemma_source_start(e);
            assert(cs[p] == xs[0]);
            lemma_expr_to_newline(cs, k, p, e);
        },
    }
}

/// Parsing the canonical source line of a statement gives exactly that
/// statement back, so writing the result in parenthesised form gives the
/// statement's own parenthesised form.
pub proof fn lemma_round_trip(s: StmtV)
    requires
        canonical_stmt(s),
    ensures
        parse_program_at(stmt_source(s), 0) == Ok::<Seq<StmtV>, ParseError>(seq![s]),
        parse_program_at(stmt_source(s), 0) matches Ok(v) && v.len() == 1 && stmt_text(v[0])
            == stmt_text(s),
{
    let cs = stmt_source(s);
    let len = cs.len() as int;
    lemma_parse_stmt_source(s);
    lemma_run_exact(cs, len, len, CharClass::Blank);
    reveal(parse_stmt_at);
    assert(parse_stmt_at(cs, len) == Err::<(StmtV, int), ParseError>(ParseError::UnexpectedEof));
    lemma_program_step(cs, len);
    lemma_program_step(cs, 0);
    assert(seq![s] + Seq::<StmtV>::empty() =~= seq![s]);
}

} // verus!
