//! The calculator: tokenizer and two-stack evaluator.
//!
//! A `Caculator` holds one evaluation's state: the raw expression, its
//! character sequence, an operand stack and an operator stack. Evaluation
//! produces an [`Expr`] tree that records which operands each operator
//! combines; turning that tree into a double-precision number is the one
//! value-level step this crate leaves to its caller.
use vstd::prelude::*;

use std::collections::VecDeque;

use crate::errors::CaculatorError;
use crate::errors::SpecError;
use crate::errors::push_char;
use crate::semantics::SpecExpr;
use crate::semantics::SpecToken;
use crate::semantics::is_digit;
use crate::semantics::is_num_char;
use crate::semantics::is_oper_char;
use crate::semantics::num_end;
use crate::semantics::lemma_num_end_bounds;
use crate::semantics::lemma_tokens_grammar;
use crate::semantics::prec_of;
use crate::semantics::tokens_from;
use crate::semantics::tokenize;
use crate::semantics::with_prefix;
use crate::semantics::reduce_step;
use crate::semantics::resolve_op;
use crate::semantics::close_paren;
use crate::semantics::lemma_close_paren_opers;
use crate::semantics::drain_ops;
use crate::semantics::run_from;
use crate::semantics::machine_result;
use crate::semantics::calculate_from;

verus! {

/// A lexical unit of an expression: a single-character operator, or a
/// numeric literal kept as the characters that spell it.
#[derive(Debug, Clone, PartialEq)]
pub enum Token {
    Op(char),
    Num(String),
}

impl View for Token {
    type V = SpecToken;

    open spec fn view(&self) -> SpecToken {
        match self {
            Token::Op(c) => SpecToken::Op(*c),
            Token::Num(s) => SpecToken::Num(s@),
        }
    }
}

impl DeepView for Token {
    type V = SpecToken;

    open spec fn deep_view(&self) -> SpecToken {
        self.view()
    }
}

/// An evaluated expression: a literal, or `Bin(op, l, r)` for `l op r`.
#[derive(Debug, PartialEq)]
pub enum Expr {
    Num(String),
    Bin(char, Box<Expr>, Box<Expr>),
}

impl Expr {
    /// The mathematical tree this expression stands for.
    pub open spec fn model(&self) -> SpecExpr
        decreases self,
    {
        match self {
            Expr::Num(s) => SpecExpr::Num(s@),
            Expr::Bin(op, l, r) => SpecExpr::Bin(*op, Box::new(l.model()), Box::new(r.model())),
        }
    }
}

impl View for Expr {
    type V = SpecExpr;

    open spec fn view(&self) -> SpecExpr {
        self.model()
    }
}

impl DeepView for Expr {
    type V = SpecExpr;

    open spec fn deep_view(&self) -> SpecExpr {
        self.model()
    }
}

/// One evaluation of one expression: the raw string, its characters, the
/// operand stack (`result`) and the operator stack. An instance is made per
/// expression and discarded after producing a result.
#[derive(Debug)]
pub struct Caculator {
    pub exp: String,
    pub chars: Vec<char>,
    pub result: VecDeque<Expr>,
    pub op_stack: VecDeque<char>,
    pub current: usize,
}

/// Whether `c` is an ASCII digit.
fn digit_char(c: char) -> (r: bool)
    ensures
        r == is_digit(c),
{
    let u = c as u32;
    48 <= u && u <= 57
}

/// Whether `c` may continue a numeric literal (digit or decimal point).
fn num_char(c: char) -> (r: bool)
    ensures
        r == is_num_char(c),
{
    c == '.' || digit_char(c)
}

/// The rank of `c` in the fixed precedence table.
fn precedence(c: char) -> (r: u8)
    requires
        is_oper_char(c),
    ensures
        r as int == prec_of(c),
{
    match c {
        '(' => 0,
        '-' => 1,
        '+' => 2,
        '/' => 3,
        '*' => 4,
        '^' => 5,
        _ => 6,
    }
}

/// The characters of `s`, in order.
fn string_chars(s: &String) -> (r: Vec<char>)
    ensures
        r@ == s@,
{
    let text = s.as_str();
    let n = text.unicode_len();
    let mut v: Vec<char> = Vec::new();
    let mut i: usize = 0;
    while i < n
        invariant
            i <= n,
            n == s@.len(),
            v@ == s@.subrange(0, i as int),
        decreases n - i,
    {
        let c = text.get_char(i);
        v.push(c);
        proof {
            assert(v@ =~= s@.subrange(0, i + 1 as int));
        }
        i += 1;
    }
    proof {
        assert(v@ =~= s@);
    }
    v
}

impl Caculator {
    /// A fresh instance for `exp`: characters scanned out, both stacks empty.
    pub fn new(exp: String) -> (r: Self)
        ensures
            r.exp@ == exp@,
            r.chars@ == exp@,
            r.result@ =~= Seq::<Expr>::empty(),
            r.op_stack@ =~= Seq::<char>::empty(),
            r.current == 0,
    {
        let chars = string_chars(&exp);
        Self { exp, chars, result: VecDeque::new(), op_stack: VecDeque::new(), current: 0 }
    }

    /// The maximal run of literal characters starting at `j`.
    fn scan_num_end(&self, j: usize) -> (r: usize)
        requires
            j <= self.chars@.len(),
        ensures
            r as int == num_end(self.chars@, j as int),
            j <= r <= self.chars@.len(),
        decreases self.chars@.len() - j,
    {
        if j < self.chars.len() {
            let c = self.chars[j];
            if num_char(c) {
                self.scan_num_end(j + 1)
            } else {
                j
            }
        } else {
            j
        }
    }

    /// Greedily consumes a numeric literal: `ch` (the character already seen
    /// at `idx`) followed by every digit or decimal point after it. Returns
    /// the literal's text and the index just past it.
    pub fn parse_num(&self, ch: char, idx: usize) -> (r: (String, usize))
        requires
            idx < self.chars@.len(),
        ensures
            r.1 as int == num_end(self.chars@, idx + 1),
            r.0@ == seq![ch] + self.chars@.subrange(idx + 1, r.1 as int),
    {
        let mut num = String::new();
        push_char(&mut num, ch);

        let n = self.chars.len();
        proof {
            assert(idx < n);
        }
        let end = self.scan_num_end(idx + 1);
        let mut new_idx = idx;
        new_idx += 1;
        while new_idx < end
            invariant
                idx + 1 <= new_idx <= end,
                end <= self.chars@.len(),
                num@ == seq![ch] + self.chars@.subrange(idx + 1, new_idx as int),
            decreases end - new_idx,
        {
            let c = self.chars[new_idx];
            push_char(&mut num, c);
            proof {
                assert(num@ =~= seq![ch] + self.chars@.subrange(idx + 1, new_idx + 1 as int));
            }
            new_idx += 1;
        }
        proof {
            assert(num@ =~= seq![ch] + self.chars@.subrange(idx + 1, end as int));
        }
        (num, new_idx)
    }

    /// Scans the whole character sequence into tokens, left to right: maximal
    /// numeric literals, operator characters one token each, whitespace
    /// skipped. An empty character sequence is rejected up front; any other
    /// unrecognized character is rejected where it stands.
    pub fn parse_chars(&self) -> (r: Result<Vec<Token>, CaculatorError>)
        ensures
            match r {
                Ok(toks) => tokenize(self.chars@, self.exp@) == Ok::<Seq<SpecToken>, SpecError>(
                    toks.deep_view(),
                ),
                Err(e) => tokenize(self.chars@, self.exp@) == Err::<Seq<SpecToken>, SpecError>(e@),
            },
    {
        if self.chars.len() == 0 {
            return Err(CaculatorError::InvalidExpression(self.exp.clone()));
        }

        let ghost s = self.chars@;
        let mut tokens: Vec<Token> = Vec::new();
        let mut idx: usize = 0;

        proof {
            assert(with_prefix(tokens.deep_view(), tokens_from(s, 0)) == tokens_from(s, 0)) by {
                if let Ok(rest) = tokens_from(s, 0) {
                    assert(tokens.deep_view() + rest =~= rest);
                }
            }
        }
        while idx < self.chars.len()
            invariant
                idx <= s.len(),
                with_prefix(tokens.deep_view(), tokens_from(s, idx as int)) == tokens_from(s, 0),
            decreases s.len() - idx,
        {
            let ch = self.chars[idx];
            let ghost pre = tokens.deep_view();
            if digit_char(ch) {
                let (num, new_idx) = self.parse_num(ch, idx);
                proof {
                    lemma_num_end_bounds(s, idx + 1);
                    assert(num@ =~= s.subrange(idx as int, new_idx as int));
                }
                tokens.push(Token::Num(num));
                proof {
                    assert(tokens.deep_view() =~= pre.push(SpecToken::Num(num@)));
                    if let Ok(rest) = tokens_from(s, new_idx as int) {
                        assert(tokens.deep_view() + rest =~= pre + (seq![
                            SpecToken::Num(s.subrange(idx as int, new_idx as int)),
                        ] + rest));
                    }
                }
                idx = new_idx;
            } else if ch == ' ' || ch == '\n' || ch == '\t' || ch == '\r' {
                idx += 1;
            } else if ch == '+' || ch == '-' || ch == '*' || ch == '/' || ch == '^' || ch == '('
                || ch == ')' {
                tokens.push(Token::Op(ch));
                proof {
                    assert(tokens.deep_view() =~= pre.push(SpecToken::Op(ch)));
                    if let Ok(rest) = tokens_from(s, idx + 1 as int) {
                        assert(tokens.deep_view() + rest =~= pre + (seq![SpecToken::Op(ch)]
                            + rest));
                    }
                }
                idx += 1;
            } else {
                return Err(CaculatorError::UnsupportedOperator(ch));
            }
        }

        proof {
            assert(tokens_from(s, idx as int) == Ok::<Seq<SpecToken>, SpecError>(
                Seq::<SpecToken>::empty(),
            ));
            assert(tokens.deep_view() + Seq::<SpecToken>::empty() =~= tokens.deep_view());
        }
        Ok(tokens)
    }

    /// One reduction: pops the right operand, then the left, and pushes the
    /// combination `left operator right` back. With fewer than two operands
    /// nothing is popped and the reduction fails, naming the operator and the
    /// two operands it needs.
    ///
    /// A division is recorded like any other combination: whether its right
    /// operand works out to exactly zero is a property of values, so the
    /// numeric realization of the tree checks it before dividing.
    pub fn calc_with_op(&mut self, operator: char) -> (r: Result<(), CaculatorError>)
        ensures
            final(self).exp == old(self).exp,
            final(self).chars == old(self).chars,
            final(self).op_stack == old(self).op_stack,
            final(self).current == old(self).current,
            match r {
                Ok(u) => reduce_step(operator, old(self).result.deep_view()) == Ok::<
                    Seq<SpecExpr>,
                    SpecError,
                >(final(self).result.deep_view()),
                Err(e) => reduce_step(operator, old(self).result.deep_view()) == Err::<
                    Seq<SpecExpr>,
                    SpecError,
                >(e@) && final(self).result.deep_view() == (if old(self).result@.len() < 2 {
                    old(self).result.deep_view()
                } else {
                    old(self).result.deep_view().subrange(0, old(self).result@.len() - 2)
                }),
            },
            old(self).result@.len() < 2 ==> r == Err::<(), CaculatorError>(
                CaculatorError::MissingOperand(operator, 2),
            ),
    {
        if self.result.len() < 2 {
            return Err(CaculatorError::MissingOperand(operator, 2));
        }

        let ghost vals = self.result.deep_view();
        let ghost l = self.result@.len() as int;
        let num2 = self.result.pop_back().unwrap();
        let num1 = self.result.pop_back().unwrap();
        proof {
            assert(self.result.deep_view() =~= vals.subrange(0, l - 2));
            assert(num1.model() == vals[l - 2]);
            assert(num2.model() == vals[l - 1]);
        }

        match operator {
            '+' | '-' | '*' | '/' | '^' => {
                let combined = Expr::Bin(operator, Box::new(num1), Box::new(num2));
                self.result.push_back(combined);
                proof {
                    assert(self.result.deep_view() =~= vals.subrange(0, l - 2).push(
                        SpecExpr::Bin(operator, Box::new(vals[l - 2]), Box::new(vals[l - 1])),
                    ));
                }
                Ok(())
            },
            _ => Err(CaculatorError::UnsupportedOperator(operator)),
        }
    }

    /// Resolves a newly seen operator `op` against the operator stack, then
    /// pushes it: with an empty stack, `op` is pushed at once; otherwise, when
    /// the stack's top ranks at least as high as `op`, the top reduces first
    /// and `op` replaces it, and when the top ranks strictly lower, `op` is
    /// pushed on top of it (the reduction stays deferred). Returns the index
    /// just past the consumed token.
    pub fn push_or_calc(&mut self, op: char, idx: usize) -> (r: Result<usize, CaculatorError>)
        requires
            is_oper_char(op),
            old(self).op_stack@.len() > 0 ==> is_oper_char(old(self).op_stack@.last()),
            idx < usize::MAX,
        ensures
            final(self).exp == old(self).exp,
            final(self).chars == old(self).chars,
            final(self).current == old(self).current,
            match r {
                Ok(j) => j == idx + 1 && resolve_op(
                    op,
                    old(self).op_stack@,
                    old(self).result.deep_view(),
                ) == Ok::<(Seq<char>, Seq<SpecExpr>), SpecError>(
                    (final(self).op_stack@, final(self).result.deep_view()),
                ),
                Err(e) => resolve_op(op, old(self).op_stack@, old(self).result.deep_view())
                    == Err::<(Seq<char>, Seq<SpecExpr>), SpecError>(e@),
            },
    {
        if self.op_stack.len() < 1 {
            self.op_stack.push_back(op);
            return Ok(idx + 1);
        }

        let ghost ops = self.op_stack@;
        let current_op = self.op_stack[self.op_stack.len() - 1];
        let current_prec = precedence(current_op);
        let new_prec = precedence(op);
        if current_prec >= new_prec {
            match self.calc_with_op(current_op) {
                Ok(u) => {},
                Err(e) => {
                    return Err(e);
                },
            }
            self.op_stack.pop_back();
            proof {
                assert(self.op_stack@ =~= ops.drop_last());
            }
        }

        self.op_stack.push_back(op);
        Ok(idx + 1)
    }

    /// Consumes a `)`: operators pop and reduce until the matching `(` marker
    /// is popped and discarded. An operator stack that empties first means
    /// the parenthesis has no partner. Returns the index just past the `)`.
    pub fn pop_util_left_parenthesis(&mut self, idx: usize) -> (r: Result<usize, CaculatorError>)
        requires
            idx < usize::MAX,
        ensures
            final(self).exp == old(self).exp,
            final(self).chars == old(self).chars,
            final(self).current == old(self).current,
            match r {
                Ok(j) => j == idx + 1 && close_paren(
                    old(self).op_stack@,
                    old(self).result.deep_view(),
                ) == Ok::<(Seq<char>, Seq<SpecExpr>), SpecError>(
                    (final(self).op_stack@, final(self).result.deep_view()),
                ),
                Err(e) => close_paren(old(self).op_stack@, old(self).result.deep_view()) == Err::<
                    (Seq<char>, Seq<SpecExpr>),
                    SpecError,
                >(e@),
            },
    {
        while self.op_stack.len() >= 1
            invariant
                close_paren(self.op_stack@, self.result.deep_view()) == close_paren(
                    old(self).op_stack@,
                    old(self).result.deep_view(),
                ),
                self.exp == old(self).exp,
                self.chars == old(self).chars,
                self.current == old(self).current,
            decreases self.op_stack@.len(),
        {
            let ghost ops = self.op_stack@;
            let operator = self.op_stack.pop_back().unwrap();
            proof {
                assert(self.op_stack@ =~= ops.drop_last());
            }
            if operator == '(' {
                return Ok(idx + 1);
            }

            match self.calc_with_op(operator) {
                Ok(u) => {},
                Err(e) => {
                    return Err(e);
                },
            }
        }

        Err(CaculatorError::UnBalancedParenthesis)
    }

    /// The final drain once every token is consumed: each remaining operator
    /// pops and reduces in turn. A `(` marker still on the stack here has no
    /// matching `)`, and is reported as an unbalanced parenthesis rather than
    /// being used as a reducible operator.
    pub fn pop_all_operators(&mut self) -> (r: Result<(), CaculatorError>)
        ensures
            final(self).exp == old(self).exp,
            final(self).chars == old(self).chars,
            final(self).current == old(self).current,
            match r {
                Ok(u) => drain_ops(old(self).op_stack@, old(self).result.deep_view()) == Ok::<
                    Seq<SpecExpr>,
                    SpecError,
                >(final(self).result.deep_view()) && final(self).op_stack@.len() == 0,
                Err(e) => drain_ops(old(self).op_stack@, old(self).result.deep_view()) == Err::<
                    Seq<SpecExpr>,
                    SpecError,
                >(e@),
            },
    {
        while self.op_stack.len() >= 1
            invariant
                drain_ops(self.op_stack@, self.result.deep_view()) == drain_ops(
                    old(self).op_stack@,
                    old(self).result.deep_view(),
                ),
                self.exp == old(self).exp,
                self.chars == old(self).chars,
                self.current == old(self).current,
            decreases self.op_stack@.len(),
        {
            let ghost ops = self.op_stack@;
            let op = self.op_stack.pop_back().unwrap();
            proof {
                assert(self.op_stack@ =~= ops.drop_last());
            }
            if op == '(' {
                return Err(CaculatorError::UnBalancedParenthesis);
            }

            match self.calc_with_op(op) {
                Ok(u) => {},
                Err(e) => {
                    return Err(e);
                },
            }
        }

        Ok(())
    }

    /// The single pass over the token sequence, then the final drain, then
    /// the answer: the top of the operand stack, popped. An operand stack
    /// with nothing left to pop means the expression never produced a value.
    pub fn do_calculation(&mut self, tokens: Vec<Token>) -> (r: Result<Expr, CaculatorError>)
        requires
            forall|i: int|
                0 <= i < old(self).op_stack@.len() ==> is_oper_char(
                    #[trigger] old(self).op_stack@[i],
                ),
            forall|i: int|
                0 <= i < tokens@.len() ==> (#[trigger] tokens@[i] matches Token::Op(c)
                    ==> is_oper_char(c)),
        ensures
            final(self).exp == old(self).exp,
            final(self).chars == old(self).chars,
            final(self).current == old(self).current,
            match r {
                Ok(e) => machine_result(
                    tokens.deep_view(),
                    old(self).op_stack@,
                    old(self).result.deep_view(),
                    old(self).exp@,
                ) == Ok::<SpecExpr, SpecError>(e.model()) && final(self).op_stack@.len() == 0,
                Err(e) => machine_result(
                    tokens.deep_view(),
                    old(self).op_stack@,
                    old(self).result.deep_view(),
                    old(self).exp@,
                ) == Err::<SpecExpr, SpecError>(e@),
            },
    {
        let ghost toks = tokens.deep_view();
        let ghost ops0 = self.op_stack@;
        let ghost vals0 = self.result.deep_view();

        let mut idx: usize = 0;
        while idx < tokens.len()
            invariant
                idx <= tokens@.len(),
                run_from(toks, idx as int, self.op_stack@, self.result.deep_view()) == run_from(
                    toks,
                    0,
                    ops0,
                    vals0,
                ),
                forall|i: int|
                    0 <= i < self.op_stack@.len() ==> is_oper_char(#[trigger] self.op_stack@[i]),
                self.exp == old(self).exp,
                self.chars == old(self).chars,
                self.current == old(self).current,
            decreases tokens@.len() - idx,
        {
            let token = &tokens[idx];
            proof {
                assert(toks[idx as int] == tokens@[idx as int].deep_view());
            }
            match token {
                Token::Num(num) => {
                    let ghost vals = self.result.deep_view();
                    let operand = Expr::Num(num.clone());
                    self.result.push_back(operand);
                    proof {
                        assert(self.result.deep_view() =~= vals.push(SpecExpr::Num(num@)));
                    }
                    idx += 1;
                },
                Token::Op(op) => {
                    let op = *op;
                    if op == '(' {
                        self.op_stack.push_back(op);
                        idx += 1;
                    } else if op == ')' {
                        let ghost ops_pre = self.op_stack@;
                        let ghost vals_pre = self.result.deep_view();
                        match self.pop_util_left_parenthesis(idx) {
                            Ok(j) => {
                                proof {
                                    lemma_close_paren_opers(
                                        ops_pre,
                                        vals_pre,
                                        self.op_stack@,
                                        self.result.deep_view(),
                                    );
                                }
                                idx = j;
                            },
                            Err(e) => {
                                return Err(e);
                            },
                        }
                    } else {
                        let ghost ops_pre = self.op_stack@;
                        match self.push_or_calc(op, idx) {
                            Ok(j) => {
                                proof {
                                    let ops_now = self.op_stack@;
                                    if ops_pre.len() == 0 {
                                        assert(ops_now == ops_pre.push(op));
                                    } else {
                                        assert(forall|i: int|
                                            0 <= i < ops_pre.drop_last().len()
                                                ==> ops_pre.drop_last()[i] == ops_pre[i]);
                                        assert(ops_now == ops_pre.push(op) || ops_now
                                            == ops_pre.drop_last().push(op));
                                    }
                                }
                                idx = j;
                            },
                            Err(e) => {
                                return Err(e);
                            },
                        }
                    }
                },
            }
        }

        match self.pop_all_operators() {
            Ok(u) => {},
            Err(e) => {
                return Err(e);
            },
        }

        let popped = self.result.pop_back();
        match popped {
            Some(v) => Ok(v),
            None => Err(CaculatorError::InvalidExpression(self.exp.clone())),
        }
    }

    /// Evaluates the expression this instance was built from: tokenize, then
    /// reduce. The answer is the expression tree recording every combination
    /// the operators make, or the first classified error.
    pub fn calculate(&mut self) -> (r: Result<Expr, CaculatorError>)
        requires
            forall|i: int|
                0 <= i < old(self).op_stack@.len() ==> is_oper_char(
                    #[trigger] old(self).op_stack@[i],
                ),
        ensures
            final(self).exp == old(self).exp,
            final(self).chars == old(self).chars,
            final(self).current == old(self).current,
            match r {
                Ok(e) => calculate_from(
                    old(self).chars@,
                    old(self).exp@,
                    old(self).op_stack@,
                    old(self).result.deep_view(),
                ) == Ok::<SpecExpr, SpecError>(e.model()) && final(self).op_stack@.len() == 0,
                Err(e) => calculate_from(
                    old(self).chars@,
                    old(self).exp@,
                    old(self).op_stack@,
                    old(self).result.deep_view(),
                ) == Err::<SpecExpr, SpecError>(e@),
            },
    {
        let tokens = match self.parse_chars() {
            Ok(tokens) => tokens,
            Err(e) => {
                return Err(e);
            },
        };
        proof {
            lemma_tokens_grammar(self.chars@, 0, tokens.deep_view());
            assert forall|i: int|
                0 <= i < tokens@.len() implies (#[trigger] tokens@[i] matches Token::Op(c)
                ==> is_oper_char(c)) by {
                assert(tokens.deep_view()[i] == tokens@[i].deep_view());
            }
        }
        self.do_calculation(tokens)
    }
}

} // verus!

