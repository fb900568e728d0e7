//! Properties of the language, proved over its semantics.
use vstd::prelude::*;
use crate::ast::{ExprV, LitV, StmtV};
use crate::interpreter::{eval, eval_infix, exec_stmt, initial_state, is_reserved, lit_value, run_stmts, State};
use crate::lexer::{in_class, run, CharClass};
use crate::lexer::lexeme;
use crate::parser::{
    atom, digits_value, lemma_program_step, parse_expr_at, parse_infix_at, parse_program_at,
    parse_stmt_at, ParseError,
};
use crate::text::{digit_char, digits};
use crate::token::TokenKind;
use crate::value::{Fault, ValueV};

verus! {

/// `false and x` is false and `true or x` is true, whatever `x` is: `x` is
/// never evaluated, so neither its errors nor its effects on the stack
/// happen.
pub proof fn lemma_short_circuit(st: State, x: ExprV)
    ensures
        eval(
            st,
            ExprV::BinaryOp(
                TokenKind::And,
                Box::new(ExprV::Literal(LitV::Bool(false))),
                Box::new(x),
            ),
        ) == (st, Ok::<ValueV, Fault>(ValueV::Bool(false))),
        eval(
            st,
            ExprV::BinaryOp(
                TokenKind::Or,
                Box::new(ExprV::Literal(LitV::Bool(true))),
                Box::new(x),
            ),
        ) == (st, Ok::<ValueV, Fault>(ValueV::Bool(true))),
{
    assert(eval(st, ExprV::Literal(LitV::Bool(false))) == (st, Ok::<ValueV, Fault>(
        ValueV::Bool(false),
    )));
    assert(eval(st, ExprV::Literal(LitV::Bool(true))) == (st, Ok::<ValueV, Fault>(
        ValueV::Bool(true),
    )));
    assert(eval_infix(st, TokenKind::And, ValueV::Bool(false), x) == (st, Ok::<ValueV, Fault>(
        ValueV::Bool(false),
    )));
    assert(eval_infix(st, TokenKind::Or, ValueV::Bool(true), x) == (st, Ok::<ValueV, Fault>(
        ValueV::Bool(true),
    )));
}

/// `set pop e` always fails with the reserved-identifier error, and changes
/// nothing.
pub proof fn lemma_pop_cannot_be_set(st: State, e: ExprV)
    ensures
        exec_stmt(st, StmtV::Assign("pop"@, e)) == (st, Err::<(), Fault>(
            Fault::ReservedIdentifier,
        )),
{
}

/// Reading `pop` takes the top value off the stack and yields it, and fails
/// with the empty-stack error when there is none.
pub proof fn lemma_reading_pop(st: State)
    ensures
        st.stack.len() > 0 ==> eval(st, ExprV::Ident("pop"@)) == (
            State { vars: st.vars, stack: st.stack.drop_last(), output: st.output },
            Ok::<ValueV, Fault>(st.stack.last()),
        ),
        st.stack.len() == 0 ==> eval(st, ExprV::Ident("pop"@)) == (st, Err::<ValueV, Fault>(
            Fault::EmptyStack,
        )),
{
    assert(is_reserved("pop"@));
}

/// The `pop` statement fails with the empty-stack error on an empty stack.
pub proof fn lemma_pop_empty_stack(st: State)
    requires
        st.stack.len() == 0,
    ensures
        exec_stmt(st, StmtV::Pop) == (st, Err::<(), Fault>(Fault::EmptyStack)),
{
}

/// After `push a` and `push b`, two reads of `pop` yield `b` and then `a`,
/// and leave the stack as it was.
pub proof fn lemma_stack_is_lifo(st: State, a: LitV, b: LitV)
    ensures
        ({
            let (s1, r) = run_stmts(
                st,
                seq![StmtV::Push(ExprV::Literal(a)), StmtV::Push(ExprV::Literal(b))],
            );
            let (s2, first) = eval(s1, ExprV::Ident("pop"@));
            let (s3, second) = eval(s2, ExprV::Ident("pop"@));
            &&& r == Ok::<(), Fault>(())
            &&& first == Ok::<ValueV, Fault>(lit_value(b))
            &&& second == Ok::<ValueV, Fault>(lit_value(a))
            &&& s3.stack == st.stack
        }),
{
    let sts = seq![StmtV::Push(ExprV::Literal(a)), StmtV::Push(ExprV::Literal(b))];
    assert(eval(st, ExprV::Literal(a)) == (st, Ok::<ValueV, Fault>(lit_value(a))));
    let t1 = exec_stmt(st, sts[0]).0;
    assert(eval(t1, ExprV::Literal(b)) == (t1, Ok::<ValueV, Fault>(lit_value(b))));
    assert(sts.subrange(1, 2) =~= seq![StmtV::Push(ExprV::Literal(b))]);
    assert(sts.subrange(1, 2).subrange(1, 1) =~= Seq::<StmtV>::empty());
    let t2 = exec_stmt(t1, StmtV::Push(ExprV::Literal(b))).0;
    assert(t2.stack == st.stack.push(lit_value(a)).push(lit_value(b)));
    assert(run_stmts(t2, Seq::<StmtV>::empty()) == (t2, Ok::<(), Fault>(())));
    assert(run_stmts(t1, seq![StmtV::Push(ExprV::Literal(b))]) == (t2, Ok::<(), Fault>(())));
    assert(run_stmts(st, sts) == (t2, Ok::<(), Fault>(())));
    assert(is_reserved("pop"@));
    assert(t2.stack.drop_last() =~= st.stack.push(lit_value(a)));
    assert(st.stack.push(lit_value(a)).drop_last() =~= st.stack);
}

} // verus!

verus! {

/// The decimal digits of a number are digit characters, at least one.
pub proof fn lemma_digits_are_digits(n: nat)
    ensures
        digits(n).len() >= 1,
        forall|i: int| 0 <= i < digits(n).len() ==> in_class(#[trigger] digits(n)[i], CharClass::Digit),
    decreases n,
{
    if n >= 10 {
        lemma_digits_are_digits(n / 10);
        assert forall|i: int| 0 <= i < digits(n).len() implies in_class(
            #[trigger] digits(n)[i],
            CharClass::Digit,
        ) by {
            if i < digits(n / 10).len() {
                assert(digits(n)[i] == digits(n / 10)[i]);
            } else {
                assert(digits(n)[i] == digit_char(n % 10));
            }
        }
    }
}

/// Reading the decimal digits of a number gives the number back.
pub proof fn lemma_digits_value(n: nat)
    ensures
        digits_value(digits(n)) == n,
    decreases n,
{
    let d = n % 10;
    assert((digit_char(d) as u32) == 48 + d) by {
        vstd::utf8::char_u32_cast(digit_char(d), (48 + d) as u32);
    }
    assert(n == (n / 10) * 10 + d) by (nonlinear_arith)
        requires
            d == n % 10,
    ;
    if n >= 10 {
        lemma_digits_value(n / 10);
        assert(digits(n).drop_last() =~= digits(n / 10));
        assert(digits(n).last() == digit_char(d));
    } else {
        assert(digits(n).drop_last() =~= Seq::<char>::empty());
        assert(digits_value(Seq::<char>::empty()) == 0);
        assert(digits(n).last() == digit_char(d));
    }
}

/// A run of characters of `class` from `i` to `j`, followed by one outside
/// it or by the end, has length `j - i`.
pub proof fn lemma_run_exact(cs: Seq<char>, i: int, j: int, class: CharClass)
    requires
        0 <= i <= j <= cs.len(),
        forall|k: int| i <= k < j ==> in_class(#[trigger] cs[k], class),
        j == cs.len() || !in_class(cs[j], class),
    ensures
        run(cs, i, class) == j - i,
    decreases j - i,
{
    if i < j {
        lemma_run_exact(cs, i + 1, j, class);
    }
}

} // verus!

verus! {

/// Every integer literal comes back from the stack: for each `n >= 0`, the
/// program `push n` (with its newline) parses to the one statement that
/// pushes `n`, and reading `pop` after running it yields `n`.
pub proof fn lemma_push_then_pop(n: i64)
    requires
        n >= 0,
    ensures
        parse_program_at("push "@ + digits(n as nat) + "\n"@, 0) == Ok::<Seq<StmtV>, ParseError>(
            seq![StmtV::Push(ExprV::Literal(LitV::Int(n)))],
        ),
        ({
            let (s1, r) = run_stmts(
                initial_state(),
                seq![StmtV::Push(ExprV::Literal(LitV::Int(n)))],
            );
            let (s2, v) = eval(s1, ExprV::Ident("pop"@));
            &&& r == Ok::<(), Fault>(())
            &&& v == Ok::<ValueV, Fault>(ValueV::Int(n))
        }),
{
    let d = digits(n as nat);
    let cs = "push "@ + d + "\n"@;
    let len = d.len() as int;
    let lit = ExprV::Literal(LitV::Int(n));
    reveal_strlit("push ");
    reveal_strlit("\n");
    reveal_strlit("push");
    reveal_strlit("set");
    lemma_digits_are_digits(n as nat);
    lemma_digits_value(n as nat);
    assert(cs.len() == 6 + len);
    assert(cs[0] == 'p' && cs[1] == 'u' && cs[2] == 's' && cs[3] == 'h' && cs[4] == ' ');
    assert(cs[5 + len] == '\n');
    assert(forall|k: int| 5 <= k < 5 + len ==> cs[k] == d[k - 5]);
    assert(forall|k: int| 5 <= k < 5 + len ==> in_class(#[trigger] cs[k], CharClass::Digit)) by {
        assert forall|k: int| 5 <= k < 5 + len implies in_class(
            #[trigger] cs[k],
            CharClass::Digit,
        ) by {
            assert(cs[k] == d[k - 5]);
        }
    }
    // The keyword.
    lemma_run_exact(cs, 0, 0, CharClass::Blank);
    lemma_run_exact(cs, 1, 4, CharClass::IdentRest);
    assert(cs.subrange(0, 4) =~= "push"@);
    assert(lexeme(cs, 0) == (TokenKind::Push, 0int, 4int));
    // The literal.
    lemma_run_exact(cs, 4, 5, CharClass::Blank);
    lemma_run_exact(cs, 6, 5 + len, CharClass::Digit);
    assert(lexeme(cs, 4) == (TokenKind::IntLit, 5int, 5 + len));
    assert(cs.subrange(5, 5 + len) =~= d);
    assert(atom(cs, TokenKind::IntLit, 5, 5 + len) == Ok::<ExprV, ParseError>(lit));
    // The newline.
    lemma_run_exact(cs, 5 + len, 5 + len, CharClass::Blank);
    assert(lexeme(cs, 5 + len) == (TokenKind::Newline, 5 + len, 6 + len));
    assert(parse_infix_at(cs, 5 + len, 0, lit) == Ok::<(ExprV, int), ParseError>(
        (lit, 5 + len),
    ));
    assert(parse_expr_at(cs, 4, 0) == Ok::<(ExprV, int), ParseError>((lit, 5 + len)));
    reveal(parse_stmt_at);
    assert(parse_stmt_at(cs, 0) == Ok::<(StmtV, int), ParseError>(
        (StmtV::Push(lit), 6 + len),
    ));
    // The end of the input.
    lemma_run_exact(cs, 6 + len, 6 + len, CharClass::Blank);
    assert(parse_stmt_at(cs, 6 + len) == Err::<(StmtV, int), ParseError>(
        ParseError::UnexpectedEof,
    ));
    lemma_program_step(cs, 6 + len);
    lemma_program_step(cs, 0);
    assert(seq![StmtV::Push(lit)] + Seq::<StmtV>::empty() =~= seq![StmtV::Push(lit)]);
    // Running.
    let st = initial_state();
    assert(eval(st, lit) == (st, Ok::<ValueV, Fault>(ValueV::Int(n))));
    let t1 = exec_stmt(st, StmtV::Push(lit)).0;
    assert(seq![StmtV::Push(lit)].subrange(1, 1) =~= Seq::<StmtV>::empty());
    assert(run_stmts(t1, Seq::<StmtV>::empty()) == (t1, Ok::<(), Fault>(())));
    assert(is_reserved("pop"@));
}

} // verus!
