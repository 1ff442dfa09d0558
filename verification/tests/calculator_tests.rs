use std::collections::VecDeque;

use calc_core::calculator::Caculator;
use calc_core::calculator::Expr;
use calc_core::calculator::Token;
use calc_core::errors::CaculatorError;

/// Numeric realization of an expression tree: parse each literal as an
/// `f64` and fold the operators, checking a divisor for exact zero before
/// dividing.
fn eval_num(e: &Expr) -> Result<f64, CaculatorError> {
    match e {
        Expr::Num(lit) => lit
            .parse::<f64>()
            .map_err(|_| CaculatorError::InvalidExpression(lit.clone())),
        Expr::Bin(op, l, r) => {
            let a = eval_num(l)?;
            let b = eval_num(r)?;
            match op {
                '+' => Ok(a + b),
                '-' => Ok(a - b),
                '*' => Ok(a * b),
                '/' => {
                    if b == 0.0 {
                        Err(CaculatorError::DivideByZero)
                    } else {
                        Ok(a / b)
                    }
                }
                '^' => Ok(a.powf(b)),
                _ => Err(CaculatorError::UnsupportedOperator(*op)),
            }
        }
    }
}

fn evaluate(exp: &str) -> Result<f64, CaculatorError> {
    let mut caculator = Caculator::new(exp.to_string());
    let tree = caculator.calculate()?;
    eval_num(&tree)
}

#[test]
fn test_parse_tokens() {
    let exp = "1+2*3";
    let caculator = Caculator::new(exp.to_string());
    let tokens = caculator.parse_chars().unwrap();

    assert_eq!(tokens.len(), 5);
    assert_eq!(tokens[0], Token::Num("1".to_string()));
    assert_eq!(tokens[1], Token::Op('+'));
    assert_eq!(tokens[2], Token::Num("2".to_string()));
    assert_eq!(tokens[3], Token::Op('*'));
    assert_eq!(tokens[4], Token::Num("3".to_string()));
}

#[test]
fn test_parse_tokens1() {
    let exp = "1.099+2.5*3.89";
    let caculator = Caculator::new(exp.to_string());
    let tokens = caculator.parse_chars().unwrap();

    assert_eq!(tokens.len(), 5);
    assert_eq!(tokens[0], Token::Num("1.099".to_string()));
    assert_eq!(tokens[1], Token::Op('+'));
    assert_eq!(tokens[2], Token::Num("2.5".to_string()));
    assert_eq!(tokens[3], Token::Op('*'));
    assert_eq!(tokens[4], Token::Num("3.89".to_string()));
}

#[test]
fn test_parse_tokens2() {
    let exp = "1.099 + 2.5 * (3.89 - 1)";
    let caculator = Caculator::new(exp.to_string());
    let tokens = caculator.parse_chars().unwrap();

    assert_eq!(tokens.len(), 9);
    assert_eq!(tokens[0], Token::Num("1.099".to_string()));
    assert_eq!(tokens[1], Token::Op('+'));
    assert_eq!(tokens[2], Token::Num("2.5".to_string()));
    assert_eq!(tokens[3], Token::Op('*'));
    assert_eq!(tokens[4], Token::Op('('));
    assert_eq!(tokens[5], Token::Num("3.89".to_string()));
    assert_eq!(tokens[6], Token::Op('-'));
    assert_eq!(tokens[7], Token::Num("1".to_string()));
    assert_eq!(tokens[8], Token::Op(')'));
}

#[test]
fn test_calc_with_op() {
    let exp = "";
    let mut caculator = Caculator::new(exp.to_string());

    let t_cases = vec![
        ('*', "40.96", "100", Some(4096 as f64)),
        ('/', "1996", "100", Some(19.96 as f64)),
        ('+', "99", "1", Some(100 as f64)),
        ('-', "33", "1", Some(32 as f64)),
        ('^', "2", "10", Some(1024 as f64)),
    ];

    for case in t_cases {
        caculator.result.push_back(Expr::Num(case.1.to_string()));
        caculator.result.push_back(Expr::Num(case.2.to_string()));

        caculator.calc_with_op(case.0).unwrap();
        let r = caculator.result.pop_back();
        let value = eval_num(&r.unwrap()).ok();
        println!("{:?}, {:?}", case, value);
        assert_eq!(value, case.3);
    }
}

#[test]
fn test_push_or_calc() {
    let exp = "1 + 8 - 6";
    let mut caculator = Caculator::new(exp.to_string());

    caculator.op_stack = VecDeque::from(vec![]);
    caculator.result = VecDeque::from(vec![Expr::Num("1".to_string())]);
    let t_cases = vec![
        (
            '+',
            "8",                                      // operand to push
            VecDeque::from(vec!['+']),                // expect op stack
            vec![1 as f64, 8 as f64],                 // expect result
        ),
        (
            '-',
            "6",
            VecDeque::from(vec!['-']),                // expect op stack
            vec![9.0, 6 as f64],                      // result
        ),
    ];

    for tc in t_cases {
        caculator.push_or_calc(tc.0, 0).unwrap();
        caculator.result.push_back(Expr::Num(tc.1.to_string()));

        assert_eq!(caculator.op_stack, tc.2);
        let values: Vec<f64> = caculator
            .result
            .iter()
            .map(|e| eval_num(e).unwrap())
            .collect();
        assert_eq!(values, tc.3);
    }
}

#[test]
fn test_calcuate() {
    let exp = "1 + 8 - 6";
    let mut caculator = Caculator::new(exp.to_string());
    let r = eval_num(&caculator.calculate().unwrap()).unwrap();
    assert_eq!(r, 3.0);

    let t_cases = vec![
        ("1 + 8 - 6", 3.0),
        ("1 + 8 - 6 * 2", -3.0),
        ("1 + 8 - 6 * 2 / 2", 3.0),
        ("2^10", 1024.0),
        ("2*10", 20.0),
        ("2/10", 0.2),
        ("2/10 + 10", 10.2),
        ("2/10 + 10 - 2", 8.2),
        ("(99 + 1) * (1 - 0.9) / 2^3", 1.2499999999999998),
    ];

    for tc in t_cases {
        let r = evaluate(tc.0).unwrap();
        assert_eq!(r, tc.1, "exp: {} is not equal to {}", tc.0, tc.1);
    }
}

#[test]
fn test_calcuate1() {
    let exp = "(99 + 1) * (1 - 0.9) / 2^3";
    let r = evaluate(exp).unwrap();
    assert_eq!(r, 1.2499999999999998);
}

#[test]
fn fully_parenthesized_follows_parentheses() {
    assert_eq!(evaluate("((1+2)*(3-4))").unwrap(), -3.0);
    assert_eq!(evaluate("(((2)^(3))^(2))").unwrap(), 64.0);
}

#[test]
fn exponentiation_reduces_left_to_right() {
    // Consecutive `^` at equal precedence reduce left-to-right, so this is
    // (2^3)^2, not the conventional right-associative 2^(3^2).
    assert_eq!(evaluate("2^3^2").unwrap(), 64.0);
}

#[test]
fn multiplication_binds_tighter_than_addition() {
    assert_eq!(evaluate("1 + 8 - 6 * 2").unwrap(), -3.0);
}

#[test]
fn divide_by_zero_is_reported() {
    assert_eq!(evaluate("5/0"), Err(CaculatorError::DivideByZero));
}

#[test]
fn empty_expression_is_invalid() {
    assert_eq!(
        evaluate(""),
        Err(CaculatorError::InvalidExpression("".to_string()))
    );
}

#[test]
fn whitespace_only_expression_lacks_an_operand() {
    // A whitespace-only expression passes the raw emptiness check and only
    // fails once evaluation finds no operand to return.
    assert_eq!(
        evaluate("   "),
        Err(CaculatorError::InvalidExpression("   ".to_string()))
    );
}

#[test]
fn unsupported_character_is_named() {
    assert_eq!(evaluate("1 & 2"), Err(CaculatorError::UnsupportedOperator('&')));
}

#[test]
fn reduce_with_one_operand_names_the_operator() {
    let mut caculator = Caculator::new("".to_string());
    caculator.result.push_back(Expr::Num("1".to_string()));
    assert_eq!(
        caculator.calc_with_op('+'),
        Err(CaculatorError::MissingOperand('+', 2))
    );

    let mut empty_stack = Caculator::new("".to_string());
    assert_eq!(
        empty_stack.calc_with_op('*'),
        Err(CaculatorError::MissingOperand('*', 2))
    );
}

#[test]
fn trailing_operator_lacks_an_operand() {
    assert_eq!(evaluate("1+"), Err(CaculatorError::MissingOperand('+', 2)));
}

#[test]
fn unmatched_parentheses_are_reported() {
    assert_eq!(evaluate("(1 + 2"), Err(CaculatorError::UnBalancedParenthesis));
    assert_eq!(evaluate("1 + 2)"), Err(CaculatorError::UnBalancedParenthesis));
    assert_eq!(evaluate(")"), Err(CaculatorError::UnBalancedParenthesis));
}

#[test]
fn unary_minus_is_out_of_grammar() {
    // No sign prefix exists: the `-` and `*` are read as binary operators
    // and fail cleanly for lack of a left operand.
    assert_eq!(evaluate("-5+3"), Err(CaculatorError::MissingOperand('-', 2)));
    assert_eq!(evaluate("3*-2"), Err(CaculatorError::MissingOperand('*', 2)));
}

#[test]
fn many_dotted_literal_is_tokenized_but_never_a_number() {
    let caculator = Caculator::new("1..2".to_string());
    let tokens = caculator.parse_chars().unwrap();
    assert_eq!(tokens, vec![Token::Num("1..2".to_string())]);
    assert_eq!(
        evaluate("1..2"),
        Err(CaculatorError::InvalidExpression("1..2".to_string()))
    );
}

#[test]
fn new_starts_with_empty_stacks() {
    let caculator = Caculator::new("1+2".to_string());
    assert_eq!(caculator.exp, "1+2");
    assert_eq!(caculator.chars, vec!['1', '+', '2']);
    assert!(caculator.result.is_empty());
    assert!(caculator.op_stack.is_empty());
    assert_eq!(caculator.current, 0);
}

#[test]
fn error_messages_are_one_line_descriptions() {
    assert_eq!(
        CaculatorError::MissingOperand('+', 2).message(),
        "operator: + need 2 operands"
    );
    assert_eq!(
        CaculatorError::UnsupportedOperator('&').message(),
        "unsupported operator: &"
    );
    assert_eq!(
        CaculatorError::InvalidExpression("1++".to_string()).message(),
        "invalid expression: 1++"
    );
    assert_eq!(CaculatorError::DivideByZero.message(), "divide by zero");
    assert_eq!(
        CaculatorError::UnBalancedParenthesis.message(),
        "unbalanced parenthesis"
    );
}
