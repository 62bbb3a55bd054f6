//! Infix-to-postfix conversion and postfix evaluation.
//!
//! An expression arrives as a whitespace-separated token stream whose tokens
//! are single-character operands (`0`-`9`, `A`-`Z`), the operators `+ - * /`
//! and the brackets `( )`. Conversion first gates the input on bracket
//! balance, then runs the shunting-yard algorithm with a precedence-ordered
//! operator stack; evaluation reduces the postfix stream with a value stack
//! using integer truncating arithmetic. Conditions with no arithmetic
//! meaning — an unknown operator, division by zero, a value stack
//! underflow — are reported as error kinds rather than aborting, so the
//! caller decides how to react.

use vstd::prelude::*;
use crate::brackets::is_balanced_text;
use crate::brackets::par_checker;
use crate::stack::Stack;

verus! {

/// Why a conversion or an evaluation produced no numeric result.
#[derive(Clone, Copy, Debug, PartialEq, Eq, Structural)]
pub enum CalcError {
    /// The bracket validator rejected the input; recoverable by the caller.
    Unbalanced,
    /// The postfix text is shorter than the five characters that two
    /// operands, one operator and two separating spaces need.
    TooShort,
    /// A token that is neither an operand, a bracket nor one of `+ - * /`.
    UnknownOperator,
    /// The right-hand operand of `/` was zero.
    DivisionByZero,
    /// An operator arrived with fewer than two operands available, or no
    /// value was left to return.
    StackUnderflow,
    /// An intermediate value left the range of 32-bit integers.
    Overflow,
}

/// Token separators: the common whitespace characters.
pub open spec fn is_space(c: char) -> bool {
    c == ' ' || c == '\t' || c == '\n' || c == '\r'
}

/// Splits `s` into maximal runs of non-space characters, carrying the
/// unfinished run `cur`.
pub open spec fn tok_helper(s: Seq<char>, cur: Seq<char>) -> Seq<Seq<char>>
    decreases s.len(),
{
    if s.len() == 0 {
        if cur.len() == 0 {
            Seq::empty()
        } else {
            seq![cur]
        }
    } else if is_space(s[0]) {
        if cur.len() == 0 {
            tok_helper(s.drop_first(), Seq::empty())
        } else {
            seq![cur] + tok_helper(s.drop_first(), Seq::empty())
        }
    } else {
        tok_helper(s.drop_first(), cur.push(s[0]))
    }
}

/// The whitespace-separated tokens of `s`, in order.
pub open spec fn tokenize_spec(s: Seq<char>) -> Seq<Seq<char>> {
    tok_helper(s, Seq::empty())
}

/// Whether `c` separates tokens.
pub fn is_space_char(c: char) -> (r: bool)
    ensures
        r == is_space(c),
{
    c == ' ' || c == '\t' || c == '\n' || c == '\r'
}

/// Splits the text into its whitespace-separated tokens.
pub fn tokenize(s: &str) -> (toks: Vec<Vec<char>>)
    ensures
        toks.deep_view() == tokenize_spec(s@),
{
    let n = s.unicode_len();
    let mut toks: Vec<Vec<char>> = Vec::new();
    let mut cur: Vec<char> = Vec::new();
    proof {
        assert(s@.skip(0) =~= s@);
    }
    for i in 0..n
        invariant
            n == s@.len(),
            tokenize_spec(s@) == toks.deep_view() + tok_helper(s@.skip(i as int), cur@),
    {
        let c = s.get_char(i);
        proof {
            assert(s@.skip(i as int)[0] == c);
            assert(s@.skip(i as int).drop_first() =~= s@.skip(i as int + 1));
        }
        if is_space_char(c) {
            if cur.len() > 0 {
                let ghost old_toks = toks.deep_view();
                let ghost done = cur@;
                toks.push(cur);
                cur = Vec::new();
                proof {
                    assert(tok_helper(s@.skip(i as int), done) == seq![done] + tok_helper(
                        s@.skip(i as int + 1),
                        Seq::empty(),
                    ));
                    assert(toks.deep_view() =~~= old_toks.push(done));
                    assert(old_toks + (seq![done] + tok_helper(s@.skip(i as int + 1), Seq::empty()))
                        =~= toks.deep_view() + tok_helper(s@.skip(i as int + 1), cur@));
                }
            } else {
                proof {
                    assert(cur@ =~= Seq::<char>::empty());
                    assert(tok_helper(s@.skip(i as int), cur@) == tok_helper(
                        s@.skip(i as int + 1),
                        cur@,
                    ));
                }
            }
        } else {
            let ghost before = cur@;
            cur.push(c);
            proof {
                assert(tok_helper(s@.skip(i as int), before) == tok_helper(
                    s@.skip(i as int + 1),
                    cur@,
                ));
            }
        }
    }
    proof {
        assert(s@.skip(n as int) =~= Seq::<char>::empty());
    }
    if cur.len() > 0 {
        let ghost old_toks = toks.deep_view();
        let ghost done = cur@;
        toks.push(cur);
        proof {
            assert(toks.deep_view() =~~= old_toks.push(done));
            assert(old_toks + seq![done] =~= toks.deep_view());
        }
    } else {
        proof {
            assert(toks.deep_view() + Seq::<Seq<char>>::empty() =~= toks.deep_view());
        }
    }
    toks
}

/// A single-character operand: a digit or an upper-case letter.
pub open spec fn is_operand_tok(t: Seq<char>) -> bool {
    t.len() == 1 && (('0' <= t[0] && t[0] <= '9') || ('A' <= t[0] && t[0] <= 'Z'))
}

/// One of the four arithmetic operator tokens.
pub open spec fn is_operator_tok(t: Seq<char>) -> bool {
    t.len() == 1 && (t[0] == '+' || t[0] == '-' || t[0] == '*' || t[0] == '/')
}

/// Precedence rank: brackets lowest, additive next, multiplicative highest.
pub open spec fn prec_of(c: char) -> int {
    if c == '(' || c == ')' {
        1
    } else if c == '+' || c == '-' {
        2
    } else if c == '*' || c == '/' {
        3
    } else {
        0
    }
}

/// Whether `c` is a single-character operand.
pub fn is_operand_char(c: char) -> (r: bool)
    ensures
        r == (('0' <= c && c <= '9') || ('A' <= c && c <= 'Z')),
{
    ('0' <= c && c <= '9') || ('A' <= c && c <= 'Z')
}

/// Whether `c` is one of the four operators.
pub fn is_operator_char(c: char) -> (r: bool)
    ensures
        r == (c == '+' || c == '-' || c == '*' || c == '/'),
{
    c == '+' || c == '-' || c == '*' || c == '/'
}

/// Precedence rank of an operator or bracket character.
pub fn prec_char(c: char) -> (p: u8)
    ensures
        p as int == prec_of(c),
{
    if c == '(' || c == ')' {
        1
    } else if c == '+' || c == '-' {
        2
    } else if c == '*' || c == '/' {
        3
    } else {
        0
    }
}

/// Operators popped from the stack, top first, while looking for the most
/// recent `(`.
pub open spec fn emitted_to_open(ops: Seq<char>) -> Seq<char>
    decreases ops.len(),
{
    if ops.len() == 0 {
        Seq::empty()
    } else if ops.last() == '(' {
        Seq::empty()
    } else {
        seq![ops.last()] + emitted_to_open(ops.drop_last())
    }
}

/// The operator stack once the most recent `(` has been popped and discarded.
pub open spec fn stack_after_open(ops: Seq<char>) -> Seq<char>
    decreases ops.len(),
{
    if ops.len() == 0 {
        ops
    } else if ops.last() == '(' {
        ops.drop_last()
    } else {
        stack_after_open(ops.drop_last())
    }
}

/// Whether the operator stack still holds a `(`.
pub open spec fn has_open(ops: Seq<char>) -> bool {
    ops.contains('(')
}

/// Operators popped, top first, while the top's precedence is at least `p`.
pub open spec fn emitted_ge(ops: Seq<char>, p: int) -> Seq<char>
    decreases ops.len(),
{
    if ops.len() == 0 {
        Seq::empty()
    } else if prec_of(ops.last()) >= p {
        seq![ops.last()] + emitted_ge(ops.drop_last(), p)
    } else {
        Seq::empty()
    }
}

/// The operator stack once every top with precedence at least `p` is popped.
pub open spec fn kept_lt(ops: Seq<char>, p: int) -> Seq<char>
    decreases ops.len(),
{
    if ops.len() == 0 {
        ops
    } else if prec_of(ops.last()) >= p {
        kept_lt(ops.drop_last(), p)
    } else {
        ops
    }
}

/// What the shunting-yard scan produces.
pub enum ConvOutcome {
    /// The postfix output tokens, each a single character, in order.
    Tokens(Seq<char>),
    /// A token outside the input alphabet was met.
    BadToken,
    /// A `)` arrived while no `(` was on the operator stack.
    MissingOpen,
}

/// The shunting-yard algorithm on the remaining tokens, given the operator
/// stack `ops` (top last) and the output emitted so far: operands go to the
/// output, `(` is stacked, `)` pops up to the matching `(`, an operator first
/// pops every stacked operator of precedence greater than or equal to its
/// own — so operators of equal precedence reduce left to right — and finally
/// the stack is drained into the output.
pub open spec fn shunt(toks: Seq<Seq<char>>, ops: Seq<char>, out: Seq<char>) -> ConvOutcome
    decreases toks.len(),
{
    if toks.len() == 0 {
        ConvOutcome::Tokens(out + ops.reverse())
    } else {
        let t = toks[0];
        let rest = toks.drop_first();
        if is_operand_tok(t) {
            shunt(rest, ops, out.push(t[0]))
        } else if t == seq!['('] {
            shunt(rest, ops.push('('), out)
        } else if t == seq![')'] {
            if has_open(ops) {
                shunt(rest, stack_after_open(ops), out + emitted_to_open(ops))
            } else {
                ConvOutcome::MissingOpen
            }
        } else if is_operator_tok(t) {
            shunt(rest, kept_lt(ops, prec_of(t[0])).push(t[0]), out + emitted_ge(ops, prec_of(t[0])))
        } else {
            ConvOutcome::BadToken
        }
    }
}

/// Single-character tokens joined by single spaces.
pub open spec fn join_with_spaces(out: Seq<char>) -> Seq<char>
    decreases out.len(),
{
    if out.len() == 0 {
        Seq::empty()
    } else if out.len() == 1 {
        seq![out[0]]
    } else {
        join_with_spaces(out.drop_last()) + seq![' ', out.last()]
    }
}

/// The conversion result owed for input `s`: the balance gate first, then
/// the shunting-yard scan of the token stream, its output joined by spaces.
pub open spec fn conversion_spec(s: Seq<char>) -> Result<Seq<char>, CalcError> {
    if !is_balanced_text(s) {
        Err(CalcError::Unbalanced)
    } else {
        match shunt(tokenize_spec(s), Seq::empty(), Seq::empty()) {
            ConvOutcome::Tokens(out) => Ok(join_with_spaces(out)),
            ConvOutcome::BadToken => Err(CalcError::UnknownOperator),
            ConvOutcome::MissingOpen => Err(CalcError::StackUnderflow),
        }
    }
}

/// A conversion result with the produced text abstracted to its view.
pub open spec fn conv_result_view(r: Result<String, CalcError>) -> Result<Seq<char>, CalcError> {
    match r {
        Ok(s) => Ok(s@),
        Err(e) => Err(e),
    }
}

proof fn lemma_has_open_drop(ops: Seq<char>)
    requires
        ops.len() > 0,
        ops.last() != '(',
    ensures
        has_open(ops) == has_open(ops.drop_last()),
{
    if has_open(ops.drop_last()) {
        let j = choose|j: int| 0 <= j < ops.drop_last().len() && ops.drop_last()[j] == '(';
        assert(ops[j] == '(');
    }
    if has_open(ops) {
        let j = choose|j: int| 0 <= j < ops.len() && ops[j] == '(';
        assert(j < ops.len() - 1);
        assert(ops.drop_last()[j] == '(');
    }
}

/// Relies on `String::push`: appends exactly the one character `c`.
#[verifier::external_body]
fn push_char(s: &mut String, c: char)
    ensures
        final(s)@ == old(s)@.push(c),
{
    s.push(c);
}

/// Converts a whitespace-tokenized infix expression to its postfix form.
///
/// Unbalanced input is rejected before any token is read; a token outside
/// the alphabet, or a `)` without its `(` on the operator stack, stops the
/// conversion with the matching error kind. On success the postfix tokens
/// come back joined by single spaces, empty input giving an empty text.
#[verifier::loop_isolation(false)]
pub fn infix_to_postfix(infix: &str) -> (r: Result<String, CalcError>)
    ensures
        conv_result_view(r) == conversion_spec(infix@),
{
    if !par_checker(infix) {
        return Err(CalcError::Unbalanced);
    }
    let toks = tokenize(infix);
    let ghost all: Seq<Seq<char>> = toks.deep_view();
    let mut ops: Stack<char> = Stack::new();
    let mut out: Vec<char> = Vec::new();
    proof {
        assert(all.skip(0) =~= all);
    }
    let n = toks.len();
    for i in 0..n
        invariant
            shunt(all, Seq::empty(), Seq::empty()) == shunt(all.skip(i as int), ops@, out@),
    {
        let t = &toks[i];
        let ghost tt = all[i as int];
        proof {
            assert(all.skip(i as int)[0] == tt);
            assert(all.skip(i as int).drop_first() =~= all.skip(i as int + 1));
            assert(tt =~= t@);
        }
        if t.len() == 1 && is_operand_char(t[0]) {
            proof {
                assert(is_operand_tok(tt));
            }
            out.push(t[0]);
        } else if t.len() == 1 && t[0] == '(' {
            proof {
                assert(tt =~= seq!['(']);
            }
            ops.push('(');
        } else if t.len() == 1 && t[0] == ')' {
            proof {
                assert(tt =~= seq![')']);
            }
            let ghost ops0 = ops@;
            let ghost out0 = out@;
            let mut found = false;
            while !found
                invariant
                    !found ==> stack_after_open(ops0) == stack_after_open(ops@),
                    !found ==> out0 + emitted_to_open(ops0) == out@ + emitted_to_open(ops@),
                    !found ==> has_open(ops0) == has_open(ops@),
                    found ==> has_open(ops0),
                    found ==> ops@ == stack_after_open(ops0),
                    found ==> out@ == out0 + emitted_to_open(ops0),
                decreases ops@.len() + (if found {
                    0int
                } else {
                    1int
                }),
            {
                let ghost before_pop = ops@;
                let popped = ops.pop();
                match popped {
                    None => {
                        proof {
                            assert(!has_open(ops@));
                            assert(shunt(all, Seq::empty(), Seq::empty())
                                == ConvOutcome::MissingOpen);
                        }
                        return Err(CalcError::StackUnderflow);
                    },
                    Some(top) => {
                        if top == '(' {
                            proof {
                                assert(before_pop.contains('(')) by {
                                    assert(before_pop[before_pop.len() - 1] == '(');
                                }
                                assert(out@ + Seq::<char>::empty() =~= out@);
                            }
                            found = true;
                        } else {
                            proof {
                                lemma_has_open_drop(before_pop);
                                assert((out@.push(top)) + emitted_to_open(ops@) =~= out@ + (seq![
                                    top,
                                ] + emitted_to_open(ops@)));
                            }
                            out.push(top);
                        }
                    },
                }
            }
            proof {
                assert(shunt(all.skip(i as int), ops0, out0) == shunt(
                    all.skip(i as int + 1),
                    ops@,
                    out@,
                ));
            }
        } else if t.len() == 1 && is_operator_char(t[0]) {
            proof {
                assert(is_operator_tok(tt));
            }
            let ghost p0 = prec_of(tt[0]);
            let p = prec_char(t[0]);
            let ghost ops0 = ops@;
            let ghost out0 = out@;
            let mut done = false;
            while !done
                invariant
                    kept_lt(ops0, p0) == kept_lt(ops@, p0),
                    out0 + emitted_ge(ops0, p0) == out@ + emitted_ge(ops@, p0),
                    done ==> kept_lt(ops@, p0) == ops@,
                    done ==> emitted_ge(ops@, p0) == Seq::<char>::empty(),
                decreases ops@.len() + (if done {
                    0int
                } else {
                    1int
                }),
            {
                if ops.is_empty() {
                    done = true;
                } else {
                    let top = *ops.peek().unwrap();
                    if prec_char(top) < p {
                        done = true;
                    } else {
                        let _ = ops.pop();
                        proof {
                            assert((out@.push(top)) + emitted_ge(ops@, p0) =~= out@ + (seq![top]
                                + emitted_ge(ops@, p0)));
                        }
                        out.push(top);
                    }
                }
            }
            proof {
                assert(out@ + Seq::<char>::empty() =~= out@);
                assert(out@ == out0 + emitted_ge(ops0, p0));
            }
            ops.push(t[0]);
            proof {
                assert(shunt(all.skip(i as int), ops0, out0) == shunt(
                    all.skip(i as int + 1),
                    ops@,
                    out@,
                ));
            }
        } else {
            proof {
                assert(tt.len() == t@.len());
                assert(!is_operand_tok(tt));
                assert(!is_operator_tok(tt));
                assert(tt != seq!['(']) by {
                    if tt == seq!['('] {
                        assert(tt.len() == 1 && tt[0] == '(');
                    }
                }
                assert(tt != seq![')']) by {
                    if tt == seq![')'] {
                        assert(tt.len() == 1 && tt[0] == ')');
                    }
                }
                assert(shunt(all, Seq::empty(), Seq::empty()) == ConvOutcome::BadToken);
            }
            return Err(CalcError::UnknownOperator);
        }
    }
    proof {
        assert(all.skip(all.len() as int) =~= Seq::<Seq<char>>::empty());
    }
    let ghost total_out = out@ + ops@.reverse();
    proof {
        assert(shunt(all, Seq::empty(), Seq::empty()) == ConvOutcome::Tokens(total_out));
    }
    while ops.len() > 0
        invariant
            out@ + ops@.reverse() == total_out,
        decreases ops@.len(),
    {
        let ghost before_pop = ops@;
        let popped = ops.pop();
        match popped {
            Some(top) => {
                proof {
                    assert(before_pop.reverse() =~= seq![top] + ops@.reverse());
                    assert((out@.push(top)) + ops@.reverse() =~= out@ + (seq![top]
                        + ops@.reverse()));
                }
                out.push(top);
            },
            None => {
                proof {
                    assert(false);
                }
            },
        }
    }
    proof {
        assert(out@ + ops@.reverse() =~= out@);
        assert(out@ == total_out);
    }
    let mut postfix_str = String::new();
    let n_out = out.len();
    for j in 0..n_out
        invariant
            postfix_str@ == join_with_spaces(out@.take(j as int)),
    {
        if j > 0 {
            postfix_str.append(" ");
            proof {
                reveal_strlit(" ");
                assert(" "@ =~= seq![' ']);
            }
        }
        push_char(&mut postfix_str, out[j]);
        proof {
            if j == 0 {
                assert(postfix_str@ =~= seq![out@[0]]);
                assert(out@.take(1).len() == 1);
                assert(out@.take(1)[0] == out@[0]);
            } else {
                assert(out@.take(j as int + 1).drop_last() =~= out@.take(j as int));
                assert(out@.take(j as int + 1).last() == out@[j as int]);
                assert(postfix_str@ =~= join_with_spaces(out@.take(j as int)) + seq![
                    ' ',
                    out@[j as int],
                ]);
            }
        }
    }
    proof {
        assert(out@.take(n_out as int) =~= out@);
    }
    Ok(postfix_str)
}

/// A single-digit operand token.
pub open spec fn is_digit_tok(t: Seq<char>) -> bool {
    t.len() == 1 && '0' <= t[0] && t[0] <= '9'
}

/// Numeric value of a digit character.
pub open spec fn digit_val(c: char) -> int {
    c as int - '0' as int
}

/// The result one operator application owes: `+ - *` with 32-bit range
/// checks, `/` as integer truncating division, division by zero and any
/// character outside the operator set reported as errors.
pub open spec fn apply_operator_spec(c: char, a: i32, b: i32) -> Result<i32, CalcError> {
    if c == '+' {
        if a + b > i32::MAX || a + b < i32::MIN {
            Err(CalcError::Overflow)
        } else {
            Ok((a + b) as i32)
        }
    } else if c == '-' {
        if a - b > i32::MAX || a - b < i32::MIN {
            Err(CalcError::Overflow)
        } else {
            Ok((a - b) as i32)
        }
    } else if c == '*' {
        if a * b > i32::MAX || a * b < i32::MIN {
            Err(CalcError::Overflow)
        } else {
            Ok((a * b) as i32)
        }
    } else if c == '/' {
        if b == 0 {
            Err(CalcError::DivisionByZero)
        } else {
            let x = a as int;
            let d = b as int;
            let q = if x == 0 {
                0int
            } else if x > 0 && d > 0 {
                x / d
            } else if x < 0 && d < 0 {
                (x * -1) / (d * -1)
            } else if x < 0 {
                ((x * -1) / d) * -1
            } else {
                (x / (d * -1)) * -1
            };
            if q > i32::MAX || q < i32::MIN {
                Err(CalcError::Overflow)
            } else {
                Ok(q as i32)
            }
        }
    } else {
        Err(CalcError::UnknownOperator)
    }
}

/// What applying an operator token owes: a token that is not a single
/// character has no arithmetic meaning.
pub open spec fn do_calc_spec(op: Seq<char>, a: i32, b: i32) -> Result<i32, CalcError> {
    if op.len() == 1 {
        apply_operator_spec(op[0], a, b)
    } else {
        Err(CalcError::UnknownOperator)
    }
}

/// Reduces the remaining postfix tokens over the value stack `vals` (top
/// last): a digit is pushed; any other token pops the right-hand operand
/// first, then the left-hand one — an operator with fewer than two operands
/// underflows — and pushes the operator's result. At the end the top of the
/// stack is the answer.
pub open spec fn eval_tokens(toks: Seq<Seq<char>>, vals: Seq<i32>) -> Result<i32, CalcError>
    decreases toks.len(),
{
    if toks.len() == 0 {
        if vals.len() == 0 {
            Err(CalcError::StackUnderflow)
        } else {
            Ok(vals.last())
        }
    } else {
        let t = toks[0];
        if is_digit_tok(t) {
            eval_tokens(toks.drop_first(), vals.push(digit_val(t[0]) as i32))
        } else if vals.len() < 2 {
            Err(CalcError::StackUnderflow)
        } else {
            match do_calc_spec(t, vals[vals.len() - 2], vals.last()) {
                Ok(v) => eval_tokens(toks.drop_first(), vals.drop_last().drop_last().push(v)),
                Err(e) => Err(e),
            }
        }
    }
}

/// The evaluation result owed for a postfix text: anything shorter than two
/// operands, one operator and two separating spaces is rejected, otherwise
/// the token stream is reduced starting from an empty value stack.
pub open spec fn evaluation_spec(s: Seq<char>) -> Result<i32, CalcError> {
    if s.len() < 5 {
        Err(CalcError::TooShort)
    } else {
        eval_tokens(tokenize_spec(s), Seq::empty())
    }
}

/// The result owed for a whole infix expression: conversion first, its
/// postfix output evaluated, errors of either stage passed through.
pub open spec fn expression_spec(s: Seq<char>) -> Result<i32, CalcError> {
    match conversion_spec(s) {
        Ok(p) => evaluation_spec(p),
        Err(e) => Err(e),
    }
}

/// Applies one operator character to its two operands, left-hand first.
pub fn apply_op(c: char, a: i32, b: i32) -> (r: Result<i32, CalcError>)
    ensures
        r == apply_operator_spec(c, a, b),
{
    if c == '+' {
        match a.checked_add(b) {
            Some(v) => Ok(v),
            None => Err(CalcError::Overflow),
        }
    } else if c == '-' {
        match a.checked_sub(b) {
            Some(v) => Ok(v),
            None => Err(CalcError::Overflow),
        }
    } else if c == '*' {
        match a.checked_mul(b) {
            Some(v) => Ok(v),
            None => Err(CalcError::Overflow),
        }
    } else if c == '/' {
        if b == 0 {
            Err(CalcError::DivisionByZero)
        } else {
            match a.checked_div(b) {
                Some(v) => Ok(v),
                None => Err(CalcError::Overflow),
            }
        }
    } else {
        Err(CalcError::UnknownOperator)
    }
}

/// Applies an operator token to its two operands, left-hand first.
pub fn do_calc(op: &str, op1: i32, op2: i32) -> (r: Result<i32, CalcError>)
    ensures
        r == do_calc_spec(op@, op1, op2),
{
    if op.unicode_len() == 1 {
        apply_op(op.get_char(0), op1, op2)
    } else {
        Err(CalcError::UnknownOperator)
    }
}

/// Evaluates a whitespace-tokenized postfix expression to its integer value.
#[verifier::loop_isolation(false)]
pub fn postfix_eval(postfix: &str) -> (r: Result<i32, CalcError>)
    ensures
        r == evaluation_spec(postfix@),
{
    if postfix.unicode_len() < 5 {
        return Err(CalcError::TooShort);
    }
    let toks = tokenize(postfix);
    let ghost all: Seq<Seq<char>> = toks.deep_view();
    let mut vals: Stack<i32> = Stack::new();
    proof {
        assert(all.skip(0) =~= all);
    }
    let n = toks.len();
    for i in 0..n
        invariant
            eval_tokens(all, Seq::empty()) == eval_tokens(all.skip(i as int), vals@),
    {
        let t = &toks[i];
        let ghost tt = all[i as int];
        proof {
            assert(all.skip(i as int)[0] == tt);
            assert(all.skip(i as int).drop_first() =~= all.skip(i as int + 1));
            assert(tt =~= t@);
        }
        if t.len() == 1 && '0' <= t[0] && t[0] <= '9' {
            proof {
                assert(is_digit_tok(tt));
            }
            let c = t[0];
            let v: i32 = ((c as u32) - 48) as i32;
            proof {
                assert(v as int == digit_val(tt[0]));
            }
            vals.push(v);
        } else {
            proof {
                assert(!is_digit_tok(tt));
            }
            let ghost vals0 = vals@;
            let op2 = match vals.pop() {
                Some(v) => v,
                None => {
                    return Err(CalcError::StackUnderflow);
                },
            };
            let op1 = match vals.pop() {
                Some(v) => v,
                None => {
                    return Err(CalcError::StackUnderflow);
                },
            };
            if t.len() != 1 {
                return Err(CalcError::UnknownOperator);
            }
            let res = match apply_op(t[0], op1, op2) {
                Ok(v) => v,
                Err(e) => {
                    return Err(e);
                },
            };
            vals.push(res);
            proof {
                assert(vals@ =~= vals0.drop_last().drop_last().push(res));
            }
        }
    }
    proof {
        assert(all.skip(n as int) =~= Seq::<Seq<char>>::empty());
    }
    match vals.pop() {
        Some(v) => Ok(v),
        None => Err(CalcError::StackUnderflow),
    }
}

/// Threads the converter into the evaluator: converts the infix expression
/// and evaluates the resulting postfix form, passing either stage's error
/// through unchanged.
pub fn expression_calc(expr: &str) -> (r: Result<i32, CalcError>)
    ensures
        r == expression_spec(expr@),
{
    let postfix = match infix_to_postfix(expr) {
        Ok(p) => p,
        Err(e) => {
            return Err(e);
        },
    };
    postfix_eval(postfix.as_str())
}

/// Evaluates a whitespace-tokenized infix expression to its integer value.
pub fn evaluate(expr: &str) -> (r: Result<i32, CalcError>)
    ensures
        r == expression_spec(expr@),
{
    expression_calc(expr)
}

/// A token the shunting-yard scan accepts: an operand, a bracket or an
/// operator.
pub open spec fn is_standard_tok(t: Seq<char>) -> bool {
    is_operand_tok(t) || t == seq!['('] || t == seq![')'] || is_operator_tok(t)
}

/// Prefix balance of the round-bracket tokens, with `k` currently open:
/// up to the first token the scan rejects anyway, no `)` token may arrive
/// while no `(` token is open.
pub open spec fn prefix_balanced(toks: Seq<Seq<char>>, k: int) -> bool
    decreases toks.len(),
{
    if toks.len() == 0 {
        true
    } else {
        let t = toks[0];
        if !is_standard_tok(t) {
            true
        } else if t == seq!['('] {
            prefix_balanced(toks.drop_first(), k + 1)
        } else if t == seq![')'] {
            k > 0 && prefix_balanced(toks.drop_first(), k - 1)
        } else {
            prefix_balanced(toks.drop_first(), k)
        }
    }
}

proof fn lemma_long_head_prefix_balanced(s: Seq<char>, cur: Seq<char>, k: int)
    requires
        cur.len() >= 2,
    ensures
        prefix_balanced(tok_helper(s, cur), k),
    decreases s.len(),
{
    if s.len() == 0 {
        assert(!is_standard_tok(cur));
    } else if is_space(s[0]) {
        assert((seq![cur] + tok_helper(s.drop_first(), Seq::empty()))[0] == cur);
        assert(!is_standard_tok(cur));
    } else {
        lemma_long_head_prefix_balanced(s.drop_first(), cur.push(s[0]), k);
    }
}

/// How much of the running `(` count the unfinished token `cur` already
/// consumed from the character scan but not yet delivered to the token scan.
spec fn tok_adjust(cur: Seq<char>, k: int) -> int {
    if cur == seq!['('] {
        k - 1
    } else if cur == seq![')'] {
        k + 1
    } else {
        k
    }
}

proof fn lemma_prefix_balanced_empty(k: int)
    ensures
        prefix_balanced(Seq::<Seq<char>>::empty(), k),
{
}

proof fn lemma_tok_adjust_plain(cur: Seq<char>, k: int)
    requires
        cur.len() != 1 || (cur[0] != '(' && cur[0] != ')'),
    ensures
        tok_adjust(cur, k) == k,
{
    assert(cur != seq!['(']) by {
        if cur == seq!['('] {
            assert(cur.len() == 1 && cur[0] == '(');
        }
    }
    assert(cur != seq![')']) by {
        if cur == seq![')'] {
            assert(cur.len() == 1 && cur[0] == ')');
        }
    }
}

proof fn lemma_round_prefix_tokens(s: Seq<char>, cur: Seq<char>, k: int)
    requires
        crate::brackets::round_prefix_balanced(s, k),
        k >= 0,
        cur.len() <= 1,
    ensures
        prefix_balanced(tok_helper(s, cur), tok_adjust(cur, k)),
    decreases s.len(),
{
    assert(seq![')'] != seq!['(']) by {
        if seq![')'] == seq!['('] {
            assert(seq![')'][0] == seq!['('][0]);
        }
    }
    if s.len() == 0 {
        if cur.len() == 1 {
            assert(tok_helper(s, cur) == seq![cur]);
            assert(seq![cur].drop_first() =~= Seq::<Seq<char>>::empty());
            lemma_prefix_balanced_empty(tok_adjust(cur, k) + 1);
            lemma_prefix_balanced_empty(tok_adjust(cur, k) - 1);
            lemma_prefix_balanced_empty(tok_adjust(cur, k));
            if cur[0] == '(' {
                assert(cur =~= seq!['(']);
            } else if cur[0] == ')' {
                assert(cur =~= seq![')']);
            } else {
                lemma_tok_adjust_plain(cur, k);
            }
        }
    } else if is_space(s[0]) {
        lemma_round_prefix_tokens(s.drop_first(), Seq::empty(), k);
        lemma_tok_adjust_plain(Seq::empty(), k);
        if cur.len() == 0 {
            assert(cur =~= Seq::<char>::empty());
            lemma_tok_adjust_plain(cur, k);
        } else {
            let rest = tok_helper(s.drop_first(), Seq::empty());
            assert((seq![cur] + rest)[0] == cur);
            assert((seq![cur] + rest).drop_first() =~= rest);
            if cur[0] == '(' {
                assert(cur =~= seq!['(']);
            } else if cur[0] == ')' {
                assert(cur =~= seq![')']);
            } else {
                lemma_tok_adjust_plain(cur, k);
            }
        }
    } else {
        let c = s[0];
        if cur.len() == 0 {
            lemma_tok_adjust_plain(cur, k);
            if c == '(' {
                lemma_round_prefix_tokens(s.drop_first(), seq!['('], k + 1);
                assert(cur.push(c) =~= seq!['(']);
            } else if c == ')' {
                lemma_round_prefix_tokens(s.drop_first(), seq![')'], k - 1);
                assert(cur.push(c) =~= seq![')']);
            } else {
                lemma_round_prefix_tokens(s.drop_first(), cur.push(c), k);
                assert(cur.push(c)[0] == c);
                lemma_tok_adjust_plain(cur.push(c), k);
            }
        } else {
            lemma_long_head_prefix_balanced(s.drop_first(), cur.push(c), tok_adjust(cur, k));
        }
    }
}

proof fn lemma_count_pos_has_open(ops: Seq<char>)
    requires
        crate::brackets::char_count(ops, '(') > 0,
    ensures
        has_open(ops),
    decreases ops.len(),
{
    if ops.len() > 0 {
        if ops[0] == '(' {
            assert(ops.contains('(')) by {
                assert(ops[0] == '(');
            }
        } else {
            lemma_count_pos_has_open(ops.drop_first());
            let j = choose|j: int| 0 <= j < ops.drop_first().len() && ops.drop_first()[j] == '(';
            assert(ops[j + 1] == '(');
        }
    }
}

proof fn lemma_count_after_open(ops: Seq<char>)
    requires
        has_open(ops),
    ensures
        crate::brackets::char_count(stack_after_open(ops), '(') == crate::brackets::char_count(
            ops,
            '(',
        ) - 1,
    decreases ops.len(),
{
    assert(ops.len() > 0);
    assert(ops =~= ops.drop_last().push(ops.last()));
    crate::brackets::lemma_char_count_push(ops.drop_last(), ops.last(), '(');
    if ops.last() != '(' {
        lemma_has_open_drop(ops);
        lemma_count_after_open(ops.drop_last());
    }
}

proof fn lemma_count_kept_lt(ops: Seq<char>, p: int)
    requires
        p >= 2,
    ensures
        crate::brackets::char_count(kept_lt(ops, p), '(') == crate::brackets::char_count(
            ops,
            '(',
        ),
    decreases ops.len(),
{
    if ops.len() > 0 && prec_of(ops.last()) >= p {
        assert(ops =~= ops.drop_last().push(ops.last()));
        crate::brackets::lemma_char_count_push(ops.drop_last(), ops.last(), '(');
        lemma_count_kept_lt(ops.drop_last(), p);
    }
}

proof fn lemma_prefix_balance_no_missing_open(toks: Seq<Seq<char>>, ops: Seq<char>, out: Seq<char>)
    requires
        prefix_balanced(toks, crate::brackets::char_count(ops, '(')),
    ensures
        shunt(toks, ops, out) != ConvOutcome::MissingOpen,
    decreases toks.len(),
{
    if toks.len() > 0 {
        let t = toks[0];
        let rest = toks.drop_first();
        if is_operand_tok(t) {
            assert(t != seq!['(']) by {
                if t == seq!['('] {
                    assert(t[0] == '(');
                }
            }
            assert(t != seq![')']) by {
                if t == seq![')'] {
                    assert(t[0] == ')');
                }
            }
            lemma_prefix_balance_no_missing_open(rest, ops, out.push(t[0]));
        } else if t == seq!['('] {
            crate::brackets::lemma_char_count_push(ops, '(', '(');
            lemma_prefix_balance_no_missing_open(rest, ops.push('('), out);
        } else if t == seq![')'] {
            crate::brackets::lemma_char_count_nonneg(ops, '(');
            lemma_count_pos_has_open(ops);
            lemma_count_after_open(ops);
            lemma_prefix_balance_no_missing_open(
                rest,
                stack_after_open(ops),
                out + emitted_to_open(ops),
            );
        } else if is_operator_tok(t) {
            let p = prec_of(t[0]);
            lemma_count_kept_lt(ops, p);
            crate::brackets::lemma_char_count_push(kept_lt(ops, p), t[0], '(');
            lemma_prefix_balance_no_missing_open(
                rest,
                kept_lt(ops, p).push(t[0]),
                out + emitted_ge(ops, p),
            );
        }
    }
}

/// Once the balance gate has passed, a `)` can never find the operator
/// stack without its `(` — and unbalanced input never reaches the scan —
/// so the conversion never reports a structural underflow, on any input.
pub proof fn lemma_no_structural_underflow(s: Seq<char>)
    ensures
        conversion_spec(s) != Err::<Seq<char>, CalcError>(CalcError::StackUnderflow),
{
    if is_balanced_text(s) {
        crate::brackets::lemma_balance_gives_round_prefix(s, Seq::empty());
        lemma_round_prefix_tokens(s, Seq::empty(), 0);
        lemma_prefix_balance_no_missing_open(tokenize_spec(s), Seq::empty(), Seq::empty());
    }
}

/// On unbalanced input the conversion owes the balance error and nothing
/// else — never a partial postfix sequence.
pub proof fn lemma_unbalanced_gives_no_result(s: Seq<char>)
    requires
        !is_balanced_text(s),
    ensures
        conversion_spec(s) == Err::<Seq<char>, CalcError>(CalcError::Unbalanced),
{
}

/// Round trip: whenever conversion succeeds, evaluating the whole infix
/// expression gives exactly what evaluating its postfix form gives.
pub proof fn lemma_postfix_round_trip(s: Seq<char>, p: Seq<char>)
    requires
        conversion_spec(s) == Ok::<Seq<char>, CalcError>(p),
    ensures
        expression_spec(s) == evaluation_spec(p),
{
}

} // verus!
