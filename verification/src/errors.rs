//! The error taxonomy of the calculator core.
use vstd::prelude::*;

verus! {

/// Specification-level form of [`CaculatorError`], with the offending
/// expression held as a sequence of characters.
pub enum SpecError {
    MissingOperand(char, u8),
    UnsupportedOperator(char),
    InvalidExpression(Seq<char>),
    DivideByZero,
    UnBalancedParenthesis,
}

/// Every way an evaluation can fail.
///
/// - `MissingOperand(op, n)`: a reduction with `op` found fewer than the `n`
///   operands it needs on the operand stack.
/// - `UnsupportedOperator(c)`: `c` is outside the recognized character set,
///   or an operator with no defined semantics reached a reduction.
/// - `InvalidExpression(s)`: the expression `s` was empty, or left no operand
///   to return at the end of evaluation.
/// - `DivideByZero`: a division whose right operand is exactly zero.
/// - `UnBalancedParenthesis`: a parenthesis with no matching partner.
#[derive(Debug, Clone, PartialEq)]
pub enum CaculatorError {
    MissingOperand(char, u8),
    UnsupportedOperator(char),
    InvalidExpression(String),
    DivideByZero,
    UnBalancedParenthesis,
}

impl View for CaculatorError {
    type V = SpecError;

    open spec fn view(&self) -> SpecError {
        match self {
            CaculatorError::MissingOperand(op, n) => SpecError::MissingOperand(*op, *n),
            CaculatorError::UnsupportedOperator(c) => SpecError::UnsupportedOperator(*c),
            CaculatorError::InvalidExpression(s) => SpecError::InvalidExpression(s@),
            CaculatorError::DivideByZero => SpecError::DivideByZero,
            CaculatorError::UnBalancedParenthesis => SpecError::UnBalancedParenthesis,
        }
    }
}

/// Relies on `String::push`: appends exactly the given character.
#[verifier::external_body]
pub(crate) fn push_char(s: &mut String, c: char)
    ensures
        final(s)@ == old(s)@.push(c),
{
    s.push(c)
}

/// The character spelling a single decimal digit.
pub open spec fn digit_of(d: nat) -> char {
    if d == 0 {
        '0'
    } else if d == 1 {
        '1'
    } else if d == 2 {
        '2'
    } else if d == 3 {
        '3'
    } else if d == 4 {
        '4'
    } else if d == 5 {
        '5'
    } else if d == 6 {
        '6'
    } else if d == 7 {
        '7'
    } else if d == 8 {
        '8'
    } else {
        '9'
    }
}

/// The decimal spelling of `n`, most significant digit first.
pub open spec fn dec_digits(n: nat) -> Seq<char>
    decreases n,
{
    if n < 10 {
        seq![digit_of(n)]
    } else {
        dec_digits(n / 10).push(digit_of(n % 10))
    }
}

/// The one-line description of each error.
pub open spec fn spec_message(e: SpecError) -> Seq<char> {
    match e {
        SpecError::MissingOperand(op, n) => "operator: "@ + seq![op] + " need "@ + dec_digits(
            n as nat,
        ) + " operands"@,
        SpecError::UnsupportedOperator(c) => "unsupported operator: "@ + seq![c],
        SpecError::InvalidExpression(s) => "invalid expression: "@ + s,
        SpecError::DivideByZero => "divide by zero"@,
        SpecError::UnBalancedParenthesis => "unbalanced parenthesis"@,
    }
}

/// The character spelling the digit `d`.
fn digit_char_of(d: u8) -> (r: char)
    requires
        d < 10,
    ensures
        r == digit_of(d as nat),
{
    match d {
        0 => '0',
        1 => '1',
        2 => '2',
        3 => '3',
        4 => '4',
        5 => '5',
        6 => '6',
        7 => '7',
        8 => '8',
        _ => '9',
    }
}

/// Appends the decimal spelling of `n`.
fn push_decimal(s: &mut String, n: u8)
    ensures
        final(s)@ == old(s)@ + dec_digits(n as nat),
    decreases n,
{
    if n < 10 {
        push_char(s, digit_char_of(n));
        proof {
            assert(s@ =~= old(s)@ + dec_digits(n as nat));
        }
    } else {
        push_decimal(s, n / 10);
        push_char(s, digit_char_of(n % 10));
        proof {
            assert(s@ =~= old(s)@ + dec_digits(n as nat));
        }
    }
}

impl CaculatorError {
    /// The error's one-line descriptive text, shown by the front end in
    /// place of a numeric result.
    pub fn message(&self) -> (r: String)
        ensures
            r@ == spec_message(self@),
    {
        let mut s = String::new();
        match self {
            CaculatorError::MissingOperand(op, n) => {
                s.append("operator: ");
                push_char(&mut s, *op);
                s.append(" need ");
                push_decimal(&mut s, *n);
                s.append(" operands");
            },
            CaculatorError::UnsupportedOperator(c) => {
                s.append("unsupported operator: ");
                push_char(&mut s, *c);
            },
            CaculatorError::InvalidExpression(e) => {
                s.append("invalid expression: ");
                s.append(e.as_str());
            },
            CaculatorError::DivideByZero => {
                s.append("divide by zero");
            },
            CaculatorError::UnBalancedParenthesis => {
                s.append("unbalanced parenthesis");
            },
        }
        proof {
            assert(s@ =~= spec_message(self@));
        }
        s
    }
}

} // verus!
