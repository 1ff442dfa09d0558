//! Specification of the calculator: the character classes and precedence
//! table, a mathematical tokenizer, and the two-stack evaluation machine.
//!
//! The executable code in [`crate::calculator`] is verified to return exactly
//! what these functions describe.
use vstd::prelude::*;

use crate::errors::SpecError;

verus! {

/// Specification-level token: a numeric literal (kept as the characters that
/// spell it) or a single-character operator.
pub enum SpecToken {
    Op(char),
    Num(Seq<char>),
}

/// Specification-level expression tree. `Bin(op, l, r)` records that `op`
/// combines the value of `l` (left operand) with the value of `r` (right
/// operand).
pub enum SpecExpr {
    Num(Seq<char>),
    Bin(char, Box<SpecExpr>, Box<SpecExpr>),
}

/// The five binary operators of the grammar.
pub open spec fn is_bin_op(c: char) -> bool {
    c == '+' || c == '-' || c == '*' || c == '/' || c == '^'
}

/// Every character with an entry in the precedence table.
pub open spec fn is_oper_char(c: char) -> bool {
    is_bin_op(c) || c == '(' || c == ')'
}

/// The fixed precedence table. `(` ranks lowest so that nothing reduces past
/// it; `)` never has its rank consulted (it is handled by dedicated control
/// flow). Characters outside the table are given a rank no caller relies on.
pub open spec fn prec_of(c: char) -> int {
    if c == '(' {
        0
    } else if c == '-' {
        1
    } else if c == '+' {
        2
    } else if c == '/' {
        3
    } else if c == '*' {
        4
    } else if c == '^' {
        5
    } else if c == ')' {
        6
    } else {
        7
    }
}

/// ASCII digits start a numeric literal.
pub open spec fn is_digit(c: char) -> bool {
    48 <= c as u32 <= 57
}

/// Whitespace that the tokenizer skips.
pub open spec fn is_space(c: char) -> bool {
    c == ' ' || c == '\n' || c == '\t' || c == '\r'
}

/// A character that may continue a numeric literal: a digit or a decimal
/// point. Several points in one literal are accepted here; whether the
/// literal then denotes a number is decided by the numeric realization.
pub open spec fn is_num_char(c: char) -> bool {
    is_digit(c) || c == '.'
}

/// The first index at or after `j` where the maximal run of literal
/// characters ends.
pub open spec fn num_end(s: Seq<char>, j: int) -> int
    decreases s.len() - j,
{
    if j < s.len() && is_num_char(s[j]) {
        num_end(s, j + 1)
    } else {
        j
    }
}

/// The scan stays within bounds and never moves backwards.
pub proof fn lemma_num_end_bounds(s: Seq<char>, j: int)
    requires
        j <= s.len(),
    ensures
        j <= num_end(s, j) <= s.len(),
    decreases s.len() - j,
{
    if j < s.len() && is_num_char(s[j]) {
        lemma_num_end_bounds(s, j + 1);
    }
}

/// Over a run of literal characters that ends at `k`, the scan started
/// anywhere in the run stops exactly at `k`.
pub proof fn lemma_num_end_run(s: Seq<char>, j: int, k: int)
    requires
        0 <= j <= k <= s.len(),
        forall|m: int| j <= m < k ==> is_num_char(#[trigger] s[m]),
        k == s.len() || !is_num_char(s[k]),
    ensures
        num_end(s, j) == k,
    decreases k - j,
{
    if j < k {
        lemma_num_end_run(s, j + 1, k);
    }
}

/// The tokens of `s` from index `i` on: literals by maximal munch, whitespace
/// skipped, operator characters one token each, and anything else rejected
/// with `UnsupportedOperator`.
pub open spec fn tokens_from(s: Seq<char>, i: int) -> Result<Seq<SpecToken>, SpecError>
    decreases s.len() - i,
    when 0 <= i
    via tokens_from_decreases
{
    if i >= s.len() {
        Ok(Seq::empty())
    } else {
        let c = s[i];
        if is_digit(c) {
            let end = num_end(s, i + 1);
            match tokens_from(s, end) {
                Ok(rest) => Ok(seq![SpecToken::Num(s.subrange(i, end))] + rest),
                Err(e) => Err(e),
            }
        } else if is_space(c) {
            tokens_from(s, i + 1)
        } else if is_oper_char(c) {
            match tokens_from(s, i + 1) {
                Ok(rest) => Ok(seq![SpecToken::Op(c)] + rest),
                Err(e) => Err(e),
            }
        } else {
            Err(SpecError::UnsupportedOperator(c))
        }
    }
}

#[via_fn]
proof fn tokens_from_decreases(s: Seq<char>, i: int) {
    if 0 <= i < s.len() {
        lemma_num_end_bounds(s, i + 1);
    }
}

/// What tokenizing an expression yields: its tokens, or `InvalidExpression`
/// when there are no characters at all (checked before whitespace-skipping,
/// so an all-whitespace expression tokenizes to an empty token sequence
/// instead). `chars` is the character sequence scanned; `exp` the expression
/// reported on failure.
pub open spec fn tokenize(chars: Seq<char>, exp: Seq<char>) -> Result<Seq<SpecToken>, SpecError> {
    if chars.len() == 0 {
        Err(SpecError::InvalidExpression(exp))
    } else {
        tokens_from(chars, 0)
    }
}

/// `r` with the already-produced tokens `pre` in front: the shape a partial
/// tokenizer run has when `r` describes what the rest of the scan yields.
pub open spec fn with_prefix(pre: Seq<SpecToken>, r: Result<Seq<SpecToken>, SpecError>) -> Result<
    Seq<SpecToken>,
    SpecError,
> {
    match r {
        Ok(rest) => Ok(pre + rest),
        Err(e) => Err(e),
    }
}

/// One reduction: the top two operand-stack entries are combined under
/// `operator` (right operand popped first). With fewer than two operands the
/// reduction fails with `MissingOperand`; an operator with no defined
/// semantics fails with `UnsupportedOperator`.
pub open spec fn reduce_step(operator: char, vals: Seq<SpecExpr>) -> Result<
    Seq<SpecExpr>,
    SpecError,
> {
    if vals.len() < 2 {
        Err(SpecError::MissingOperand(operator, 2))
    } else if is_bin_op(operator) {
        Ok(
            vals.subrange(0, vals.len() - 2).push(
                SpecExpr::Bin(
                    operator,
                    Box::new(vals[vals.len() - 2]),
                    Box::new(vals[vals.len() - 1]),
                ),
            ),
        )
    } else {
        Err(SpecError::UnsupportedOperator(operator))
    }
}

/// How a newly seen binary operator `op` meets the operator stack: with an
/// empty stack it is pushed; otherwise, when the stack's top has precedence
/// at least that of `op`, the top reduces first and is replaced by `op`
/// (the `>=` makes equal precedence reduce left-to-right); and when the top
/// ranks strictly lower, `op` is pushed on top of it.
pub open spec fn resolve_op(op: char, ops: Seq<char>, vals: Seq<SpecExpr>) -> Result<
    (Seq<char>, Seq<SpecExpr>),
    SpecError,
> {
    if ops.len() == 0 {
        Ok((ops.push(op), vals))
    } else {
        let current = ops.last();
        if prec_of(current) >= prec_of(op) {
            match reduce_step(current, vals) {
                Ok(vals2) => Ok((ops.drop_last().push(op), vals2)),
                Err(e) => Err(e),
            }
        } else {
            Ok((ops.push(op), vals))
        }
    }
}

/// What a closing parenthesis does: operators pop and reduce until a `(`
/// marker is popped and discarded; an operator stack that empties first means
/// the parenthesis has no partner.
pub open spec fn close_paren(ops: Seq<char>, vals: Seq<SpecExpr>) -> Result<
    (Seq<char>, Seq<SpecExpr>),
    SpecError,
>
    decreases ops.len(),
{
    if ops.len() == 0 {
        Err(SpecError::UnBalancedParenthesis)
    } else {
        let top = ops.last();
        if top == '(' {
            Ok((ops.drop_last(), vals))
        } else {
            match reduce_step(top, vals) {
                Ok(vals2) => close_paren(ops.drop_last(), vals2),
                Err(e) => Err(e),
            }
        }
    }
}

/// The final drain once every token is consumed: each remaining operator
/// reduces in turn. A `(` marker still on the stack at this point has no
/// matching `)`, and the drain reports it as such rather than attempting to
/// reduce with it.
pub open spec fn drain_ops(ops: Seq<char>, vals: Seq<SpecExpr>) -> Result<Seq<SpecExpr>, SpecError>
    decreases ops.len(),
{
    if ops.len() == 0 {
        Ok(vals)
    } else {
        let top = ops.last();
        if top == '(' {
            Err(SpecError::UnBalancedParenthesis)
        } else {
            match reduce_step(top, vals) {
                Ok(vals2) => drain_ops(ops.drop_last(), vals2),
                Err(e) => Err(e),
            }
        }
    }
}

/// The single left-to-right pass over the token sequence, from index `i`,
/// with operator stack `ops` and operand stack `vals`: numbers push an
/// operand, `(` pushes a marker, `)` closes a group, and a binary operator
/// resolves against the stack. The result is the machine state once every
/// token is consumed.
pub open spec fn run_from(
    toks: Seq<SpecToken>,
    i: int,
    ops: Seq<char>,
    vals: Seq<SpecExpr>,
) -> Result<(Seq<char>, Seq<SpecExpr>), SpecError>
    decreases toks.len() - i,
{
    if i < 0 || i >= toks.len() {
        Ok((ops, vals))
    } else {
        match toks[i] {
            SpecToken::Num(s) => run_from(toks, i + 1, ops, vals.push(SpecExpr::Num(s))),
            SpecToken::Op(c) => {
                if c == '(' {
                    run_from(toks, i + 1, ops.push(c), vals)
                } else if c == ')' {
                    match close_paren(ops, vals) {
                        Ok((ops2, vals2)) => run_from(toks, i + 1, ops2, vals2),
                        Err(e) => Err(e),
                    }
                } else {
                    match resolve_op(c, ops, vals) {
                        Ok((ops2, vals2)) => run_from(toks, i + 1, ops2, vals2),
                        Err(e) => Err(e),
                    }
                }
            },
        }
    }
}

/// The whole evaluation of a token sequence from starting stacks `ops0` and
/// `vals0`: run the pass, drain the remaining operators, and take the top
/// operand as the answer. An empty operand stack at the end means the
/// expression `exp` never produced a value.
pub open spec fn machine_result(
    toks: Seq<SpecToken>,
    ops0: Seq<char>,
    vals0: Seq<SpecExpr>,
    exp: Seq<char>,
) -> Result<SpecExpr, SpecError> {
    match run_from(toks, 0, ops0, vals0) {
        Ok((ops, vals)) => match drain_ops(ops, vals) {
            Ok(finals) => if finals.len() == 0 {
                Err(SpecError::InvalidExpression(exp))
            } else {
                Ok(finals.last())
            },
            Err(e) => Err(e),
        },
        Err(e) => Err(e),
    }
}

/// What evaluating the expression `exp` (scanned as `chars`) returns when the
/// machine starts from stacks `ops0` and `vals0`: tokenize, then run.
pub open spec fn calculate_from(
    chars: Seq<char>,
    exp: Seq<char>,
    ops0: Seq<char>,
    vals0: Seq<SpecExpr>,
) -> Result<SpecExpr, SpecError> {
    match tokenize(chars, exp) {
        Ok(toks) => machine_result(toks, ops0, vals0, exp),
        Err(e) => Err(e),
    }
}

/// What evaluating the expression `exp` (scanned as `chars`) returns on a
/// freshly constructed calculator: tokenize, then run from empty stacks.
pub open spec fn calculate_spec(chars: Seq<char>, exp: Seq<char>) -> Result<SpecExpr, SpecError> {
    calculate_from(chars, exp, Seq::empty(), Seq::empty())
}

/// A token the tokenizer can produce: any literal, or an operator character
/// with an entry in the precedence table.
pub open spec fn is_grammar_token(t: SpecToken) -> bool {
    match t {
        SpecToken::Op(c) => is_oper_char(c),
        SpecToken::Num(_) => true,
    }
}

/// Closing a parenthesis only discards operators: every character still on
/// the operator stack afterwards was on it before.
pub proof fn lemma_close_paren_opers(
    ops: Seq<char>,
    vals: Seq<SpecExpr>,
    ops2: Seq<char>,
    vals2: Seq<SpecExpr>,
)
    requires
        close_paren(ops, vals) == Ok::<(Seq<char>, Seq<SpecExpr>), SpecError>((ops2, vals2)),
        forall|i: int| 0 <= i < ops.len() ==> is_oper_char(#[trigger] ops[i]),
    ensures
        forall|i: int| 0 <= i < ops2.len() ==> is_oper_char(#[trigger] ops2[i]),
    decreases ops.len(),
{
    if ops.len() > 0 {
        let top = ops.last();
        assert(forall|i: int| 0 <= i < ops.drop_last().len() ==> ops.drop_last()[i] == ops[i]);
        if top == '(' {
        } else {
            if let Ok(v2) = reduce_step(top, vals) {
                lemma_close_paren_opers(ops.drop_last(), v2, ops2, vals2);
            }
        }
    }
}

/// The tokenizer only produces operator tokens drawn from the precedence
/// table.
pub proof fn lemma_tokens_grammar(s: Seq<char>, i: int, toks: Seq<SpecToken>)
    requires
        0 <= i,
        tokens_from(s, i) == Ok::<Seq<SpecToken>, SpecError>(toks),
    ensures
        forall|k: int| 0 <= k < toks.len() ==> is_grammar_token(#[trigger] toks[k]),
    decreases s.len() - i,
{
    if i >= s.len() {
    } else {
        let c = s[i];
        if is_digit(c) {
            let end = num_end(s, i + 1);
            lemma_num_end_bounds(s, i + 1);
            if let Ok(rest) = tokens_from(s, end) {
                lemma_tokens_grammar(s, end, rest);
                assert(toks == seq![SpecToken::Num(s.subrange(i, end))] + rest);
                assert forall|k: int| 0 <= k < toks.len() implies is_grammar_token(
                    #[trigger] toks[k],
                ) by {
                    if k >= 1 {
                        assert(toks[k] == rest[k - 1]);
                    }
                }
            }
        } else if is_space(c) {
            lemma_tokens_grammar(s, i + 1, toks);
        } else if is_oper_char(c) {
            if let Ok(rest) = tokens_from(s, i + 1) {
                lemma_tokens_grammar(s, i + 1, rest);
                assert(toks == seq![SpecToken::Op(c)] + rest);
                assert forall|k: int| 0 <= k < toks.len() implies is_grammar_token(
                    #[trigger] toks[k],
                ) by {
                    if k >= 1 {
                        assert(toks[k] == rest[k - 1]);
                    }
                }
            }
        }
    }
}

} // verus!
