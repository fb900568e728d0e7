//! The syntax tree, and its mathematical model with names and texts as
//! sequences of characters.
use vstd::prelude::*;
use crate::text::{decimal, push_decimal, push_str, string_of};
use crate::token::{kind_name, TokenKind};

verus! {

/// A literal value written in the source.
#[derive(Debug, PartialEq)]
pub enum Lit {
    Int(i64),
    Str(String),
    Bool(bool),
}

/// An expression.
#[derive(Debug, PartialEq)]
pub enum Expr {
    Literal(Lit),
    Ident(String),
    BinaryOp(TokenKind, Box<Expr>, Box<Expr>),
    UnaryOp(TokenKind, Box<Expr>),
}

/// A statement; a program is a sequence of them, run in order.
#[derive(Debug, PartialEq)]
pub enum Stmt {
    /// `set <name> <expr>`
    Assign(String, Expr),
    Push(Expr),
    Check(Expr),
    Pop,
    Print(Expr),
}

/// Model of a literal.
pub enum LitV {
    Int(i64),
    Str(Seq<char>),
    Bool(bool),
}

/// Model of an expression.
pub enum ExprV {
    Literal(LitV),
    Ident(Seq<char>),
    BinaryOp(TokenKind, Box<ExprV>, Box<ExprV>),
    UnaryOp(TokenKind, Box<ExprV>),
}

/// Model of a statement.
pub enum StmtV {
    Assign(Seq<char>, ExprV),
    Push(ExprV),
    Check(ExprV),
    Pop,
    Print(ExprV),
}

impl View for Lit {
    type V = LitV;

    open spec fn view(&self) -> LitV {
        match self {
            Lit::Int(n) => LitV::Int(*n),
            Lit::Str(s) => LitV::Str(s@),
            Lit::Bool(b) => LitV::Bool(*b),
        }
    }
}

pub open spec fn expr_view(e: &Expr) -> ExprV
    decreases e,
{
    match e {
        Expr::Literal(l) => ExprV::Literal(l@),
        Expr::Ident(s) => ExprV::Ident(s@),
        Expr::BinaryOp(op, l, r) => ExprV::BinaryOp(
            *op,
            Box::new(expr_view(l)),
            Box::new(expr_view(r)),
        ),
        Expr::UnaryOp(op, x) => ExprV::UnaryOp(*op, Box::new(expr_view(x))),
    }
}

impl View for Expr {
    type V = ExprV;

    open spec fn view(&self) -> ExprV {
        expr_view(self)
    }
}

impl View for Stmt {
    type V = StmtV;

    open spec fn view(&self) -> StmtV {
        match self {
            Stmt::Assign(n, e) => StmtV::Assign(n@, e@),
            Stmt::Push(e) => StmtV::Push(e@),
            Stmt::Check(e) => StmtV::Check(e@),
            Stmt::Pop => StmtV::Pop,
            Stmt::Print(e) => StmtV::Print(e@),
        }
    }
}

/// The parenthesised form of a literal: integers in decimal, strings as
/// they are, booleans as `true` or `false`.
pub open spec fn lit_text(l: LitV) -> Seq<char> {
    match l {
        LitV::Int(n) => decimal(n as int),
        LitV::Str(s) => s,
        LitV::Bool(b) => if b {
            "true"@
        } else {
            "false"@
        },
    }
}

/// The parenthesised prefix form of an expression: `(op left right)` for a
/// binary operation, `(op operand)` for a unary one.
pub open spec fn expr_text(e: ExprV) -> Seq<char>
    decreases e,
{
    match e {
        ExprV::Literal(l) => lit_text(l),
        ExprV::Ident(n) => n,
        ExprV::BinaryOp(op, l, r) => "("@ + kind_name(op) + " "@ + expr_text(*l) + " "@
            + expr_text(*r) + ")"@,
        ExprV::UnaryOp(op, x) => "("@ + kind_name(op) + " "@ + expr_text(*x) + ")"@,
    }
}

/// The parenthesised form of a statement, such as `(set x (+ 1 2))`.
pub open spec fn stmt_text(s: StmtV) -> Seq<char> {
    match s {
        StmtV::Assign(n, e) => "(set "@ + n + " "@ + expr_text(e) + ")"@,
        StmtV::Push(e) => "(push "@ + expr_text(e) + ")"@,
        StmtV::Check(e) => "(check "@ + expr_text(e) + ")"@,
        StmtV::Pop => "(pop)"@,
        StmtV::Print(e) => "(print "@ + expr_text(e) + ")"@,
    }
}

fn finish(buf: Vec<char>) -> (r: String)
    ensures
        r@ == buf@,
{
    let n = buf.len();
    let r = string_of(&buf, 0, n);
    assert(buf@.subrange(0, n as int) =~= buf@);
    r
}

impl Lit {
    fn write_to(&self, buf: &mut Vec<char>)
        ensures
            final(buf)@ == old(buf)@ + lit_text(self@),
    {
        match self {
            Lit::Int(n) => push_decimal(buf, *n),
            Lit::Str(s) => push_str(buf, s.as_str()),
            Lit::Bool(b) => {
                if *b {
                    push_str(buf, "true");
                } else {
                    push_str(buf, "false");
                }
            },
        }
    }

    /// The parenthesised form of this literal.
    pub fn to_text(&self) -> (r: String)
        ensures
            r@ == lit_text(self@),
    {
        let mut buf: Vec<char> = Vec::new();
        self.write_to(&mut buf);
        assert(buf@ =~= lit_text(self@));
        finish(buf)
    }
}

impl Expr {
    fn write_to(&self, buf: &mut Vec<char>)
        ensures
            final(buf)@ == old(buf)@ + expr_text(self@),
        decreases self,
    {
        match self {
            Expr::Literal(l) => l.write_to(buf),
            Expr::Ident(n) => push_str(buf, n.as_str()),
            Expr::BinaryOp(op, l, r) => {
                push_str(buf, "(");
                push_str(buf, op.name());
                push_str(buf, " ");
                l.write_to(buf);
                push_str(buf, " ");
                r.write_to(buf);
                push_str(buf, ")");
                assert(final(buf)@ =~= old(buf)@ + expr_text(self@));
            },
            Expr::UnaryOp(op, x) => {
                push_str(buf, "(");
                push_str(buf, op.name());
                push_str(buf, " ");
                x.write_to(buf);
                push_str(buf, ")");
                assert(final(buf)@ =~= old(buf)@ + expr_text(self@));
            },
        }
    }

    /// The parenthesised prefix form of this expression.
    pub fn to_text(&self) -> (r: String)
        ensures
            r@ == expr_text(self@),
    {
        let mut buf: Vec<char> = Vec::new();
        self.write_to(&mut buf);
        assert(buf@ =~= expr_text(self@));
        finish(buf)
    }
}

impl Stmt {
    /// The parenthesised form of this statement.
    pub fn to_text(&self) -> (r: String)
        ensures
            r@ == stmt_text(self@),
    {
        let mut buf: Vec<char> = Vec::new();
        match self {
            Stmt::Assign(n, e) => {
                push_str(&mut buf, "(set ");
                push_str(&mut buf, n.as_str());
                push_str(&mut buf, " ");
                e.write_to(&mut buf);
            },
            Stmt::Push(e) => {
                push_str(&mut buf, "(push ");
                e.write_to(&mut buf);
            },
            Stmt::Check(e) => {
                push_str(&mut buf, "(check ");
                e.write_to(&mut buf);
            },
            Stmt::Pop => {
                push_str(&mut buf, "(pop");
            },
            Stmt::Print(e) => {
                push_str(&mut buf, "(print ");
                e.write_to(&mut buf);
            },
        }
        push_str(&mut buf, ")");
        proof {
            reveal_strlit("(pop)");
            reveal_strlit("(pop");
            reveal_strlit(")");
        }
        assert(buf@ =~= stmt_text(self@));
        finish(buf)
    }
}

} // verus!
