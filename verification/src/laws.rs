//! Verified laws of the evaluator.
use vstd::prelude::*;

use crate::errors::SpecError;
use crate::semantics::SpecExpr;
use crate::semantics::SpecToken;
use crate::semantics::calculate_spec;
use crate::semantics::is_bin_op;
use crate::semantics::is_digit;
use crate::semantics::is_num_char;
use crate::semantics::is_oper_char;
use crate::semantics::is_space;
use crate::semantics::lemma_num_end_run;
use crate::semantics::machine_result;
use crate::semantics::prec_of;
use crate::semantics::reduce_step;
use crate::semantics::resolve_op;
use crate::semantics::close_paren;
use crate::semantics::drain_ops;
use crate::semantics::run_from;
use crate::semantics::tokenize;
use crate::semantics::tokens_from;
use crate::semantics::with_prefix;

verus! {

/// A well-formed expression tree: every operator in it is one of the five
/// binary operators.
pub open spec fn wf_expr(e: SpecExpr) -> bool
    decreases e,
{
    match e {
        SpecExpr::Num(s) => true,
        SpecExpr::Bin(op, l, r) => is_bin_op(op) && wf_expr(*l) && wf_expr(*r),
    }
}

/// The fully parenthesized spelling of a tree: a literal stands alone, and a
/// combination is written `( left op right )`.
pub open spec fn paren_tokens(e: SpecExpr) -> Seq<SpecToken>
    decreases e,
{
    match e {
        SpecExpr::Num(s) => seq![SpecToken::Num(s)],
        SpecExpr::Bin(op, l, r) => seq![SpecToken::Op('(')] + paren_tokens(*l) + seq![
            SpecToken::Op(op),
        ] + paren_tokens(*r) + seq![SpecToken::Op(')')],
    }
}

/// Consuming the fully parenthesized spelling of `e`, from any machine
/// state, pushes exactly `e` onto the operand stack and leaves the operator
/// stack as it was.
proof fn lemma_consume(
    e: SpecExpr,
    toks: Seq<SpecToken>,
    i: int,
    ops: Seq<char>,
    vals: Seq<SpecExpr>,
)
    requires
        wf_expr(e),
        0 <= i,
        i + paren_tokens(e).len() <= toks.len(),
        toks.subrange(i, i + paren_tokens(e).len()) == paren_tokens(e),
    ensures
        run_from(toks, i, ops, vals) == run_from(
            toks,
            i + paren_tokens(e).len(),
            ops,
            vals.push(e),
        ),
    decreases e,
{
    let p = paren_tokens(e);
    let n = p.len() as int;
    assert(forall|j: int| 0 <= j < n ==> toks[i + j] == #[trigger] p[j]) by {
        assert(forall|j: int|
            0 <= j < n ==> toks[i + j] == #[trigger] toks.subrange(i, i + n)[j]);
    }
    match e {
        SpecExpr::Num(s) => {
            assert(toks[i] == SpecToken::Num(s));
        },
        SpecExpr::Bin(op, l, r) => {
            let pl = paren_tokens(*l);
            let pr = paren_tokens(*r);
            let ll = pl.len() as int;
            let rl = pr.len() as int;
            let i1 = i + 1 + ll;
            let i2 = i1 + 1 + rl;

            assert(p[0] == SpecToken::Op('('));
            assert(forall|k: int| 0 <= k < ll ==> p[1 + k] == #[trigger] pl[k]);
            assert(p[1 + ll] == SpecToken::Op(op));
            assert(forall|k: int| 0 <= k < rl ==> p[2 + ll + k] == #[trigger] pr[k]);
            assert(p[n - 1] == SpecToken::Op(')'));

            // Step 1: the opening parenthesis pushes a marker.
            assert(toks[i] == SpecToken::Op('('));
            let ops1 = ops.push('(');
            assert(run_from(toks, i, ops, vals) == run_from(toks, i + 1, ops1, vals));

            // Step 2: the left operand's spelling pushes the left operand.
            assert(toks.subrange(i + 1, i1) =~= pl);
            lemma_consume(*l, toks, i + 1, ops1, vals);
            let vals1 = vals.push(*l);

            // Step 3: the operator meets a `(` marker, which ranks below it,
            // so the operator is pushed without reducing.
            assert(toks[i1] == SpecToken::Op(op));
            assert(op != '(' && op != ')');
            assert(prec_of('(') == 0 && prec_of(op) >= 1);
            let ops2 = ops1.push(op);
            assert(resolve_op(op, ops1, vals1) == Ok::<(Seq<char>, Seq<SpecExpr>), SpecError>(
                (ops2, vals1),
            ));
            assert(run_from(toks, i1, ops1, vals1) == run_from(toks, i1 + 1, ops2, vals1));

            // Step 4: the right operand's spelling pushes the right operand.
            assert(toks.subrange(i1 + 1, i2) =~= pr);
            lemma_consume(*r, toks, i1 + 1, ops2, vals1);
            let vals2 = vals1.push(*r);

            // Step 5: the closing parenthesis reduces once and discards the
            // marker, leaving the combined tree on the operand stack.
            assert(toks[i2] == SpecToken::Op(')'));
            assert(vals2.len() >= 2 && vals2[vals2.len() - 2] == *l && vals2[vals2.len() - 1]
                == *r);
            assert(vals2.subrange(0, vals2.len() - 2) =~= vals);
            assert(reduce_step(op, vals2) == Ok::<Seq<SpecExpr>, SpecError>(vals.push(e))) by {
                assert(SpecExpr::Bin(op, Box::new(*l), Box::new(*r)) == e);
            }
            assert(ops2.drop_last() =~= ops1);
            assert(ops1.drop_last() =~= ops);
            assert(ops1.last() == '(');
            assert(close_paren(ops1, vals.push(e)) == Ok::<(Seq<char>, Seq<SpecExpr>), SpecError>(
                (ops, vals.push(e)),
            ));
            assert(ops2.last() == op);
            assert(close_paren(ops2, vals2) == close_paren(ops1, vals.push(e)));
            assert(run_from(toks, i2, ops2, vals2) == run_from(toks, i2 + 1, ops, vals.push(e)));
            assert(i2 + 1 == i + n);
        },
    }
}

/// Law: evaluating a fully parenthesized expression follows its parentheses.
///
/// For every well-formed expression tree, running the two-stack machine on
/// the tree's fully parenthesized token spelling returns exactly that tree —
/// every operator combines precisely the two operands its parentheses
/// enclose, in standard recursive order. (Precedence and associativity only
/// shape results when parentheses are omitted; for `^`, which this machine
/// reduces left-to-right, see the scenario tests.) `exp` is the expression
/// text an evaluation would report in errors; none occurs.
pub proof fn lemma_fully_parenthesized(e: SpecExpr, exp: Seq<char>)
    requires
        wf_expr(e),
    ensures
        machine_result(paren_tokens(e), Seq::empty(), Seq::empty(), exp) == Ok::<
            SpecExpr,
            SpecError,
        >(e),
{
    let toks = paren_tokens(e);
    let none: Seq<char> = Seq::empty();
    let empty: Seq<SpecExpr> = Seq::empty();
    assert(toks.subrange(0, toks.len() as int) =~= toks);
    lemma_consume(e, toks, 0, none, empty);
    assert(run_from(toks, toks.len() as int, none, empty.push(e)) == Ok::<
        (Seq<char>, Seq<SpecExpr>),
        SpecError,
    >((none, empty.push(e))));
    assert(drain_ops(none, empty.push(e)) == Ok::<Seq<SpecExpr>, SpecError>(empty.push(e)));
    assert(empty.push(e).last() == e);
}

/// A literal the tokenizer could have produced: non-empty, starting with a
/// digit, made of digits and decimal points only.
pub open spec fn wf_literal(s: Seq<char>) -> bool {
    s.len() > 0 && is_digit(s[0]) && (forall|i: int| 0 <= i < s.len() ==> is_num_char(
        #[trigger] s[i],
    ))
}

/// A tree whose operators are the five binary operators and whose literals
/// the tokenizer could have produced.
pub open spec fn wf_text_expr(e: SpecExpr) -> bool
    decreases e,
{
    match e {
        SpecExpr::Num(s) => wf_literal(s),
        SpecExpr::Bin(op, l, r) => is_bin_op(op) && wf_text_expr(*l) && wf_text_expr(*r),
    }
}

/// The fully parenthesized text of a tree: a literal is spelled as itself,
/// and a combination as `(` left `op` right `)`.
pub open spec fn paren_text(e: SpecExpr) -> Seq<char>
    decreases e,
{
    match e {
        SpecExpr::Num(s) => s,
        SpecExpr::Bin(op, l, r) => seq!['('] + paren_text(*l) + seq![op] + paren_text(*r) + seq![
            ')',
        ],
    }
}

/// Well-formed text trees are in particular well-formed trees.
proof fn lemma_wf_text_expr_wf(e: SpecExpr)
    requires
        wf_text_expr(e),
    ensures
        wf_expr(e),
    decreases e,
{
    if let SpecExpr::Bin(op, l, r) = e {
        lemma_wf_text_expr_wf(*l);
        lemma_wf_text_expr_wf(*r);
    }
}

/// A well-formed tree's text is never empty.
proof fn lemma_paren_text_len(e: SpecExpr)
    requires
        wf_text_expr(e),
    ensures
        paren_text(e).len() > 0,
{
}

/// Tokens already produced gather on the left of whatever the rest of the
/// scan yields.
proof fn lemma_with_prefix_assoc(
    a: Seq<SpecToken>,
    b: Seq<SpecToken>,
    r: Result<Seq<SpecToken>, SpecError>,
)
    ensures
        with_prefix(a, with_prefix(b, r)) == with_prefix(a + b, r),
{
    if let Ok(rest) = r {
        assert(a + (b + rest) =~= (a + b) + rest);
    }
}

/// Scanning the fully parenthesized text of `e`, from any position whose
/// right context cannot extend a literal, yields exactly the fully
/// parenthesized token spelling of `e`, followed by the scan of the rest.
proof fn lemma_scan_paren_text(e: SpecExpr, t: Seq<char>, i: int)
    requires
        wf_text_expr(e),
        0 <= i,
        i + paren_text(e).len() <= t.len(),
        t.subrange(i, i + paren_text(e).len()) == paren_text(e),
        i + paren_text(e).len() == t.len() || !is_num_char(t[i + paren_text(e).len()]),
    ensures
        tokens_from(t, i) == with_prefix(
            paren_tokens(e),
            tokens_from(t, i + paren_text(e).len()),
        ),
    decreases e,
{
    let p = paren_text(e);
    let n = p.len() as int;
    assert(forall|j: int| 0 <= j < n ==> t[i + j] == #[trigger] p[j]) by {
        assert(forall|j: int| 0 <= j < n ==> t[i + j] == #[trigger] t.subrange(i, i + n)[j]);
    }
    match e {
        SpecExpr::Num(s) => {
            assert(is_digit(t[i]));
            assert(forall|m: int| i + 1 <= m < i + n ==> is_num_char(#[trigger] t[m])) by {
                assert(forall|m: int| i + 1 <= m < i + n ==> t[m] == p[m - i]);
            }
            lemma_num_end_run(t, i + 1, i + n);
            assert(t.subrange(i, i + n) =~= s);
            assert(tokens_from(t, i) == with_prefix(seq![SpecToken::Num(s)], tokens_from(t, i + n)));
        },
        SpecExpr::Bin(op, l, r) => {
            let pl = paren_text(*l);
            let pr = paren_text(*r);
            let tl = paren_tokens(*l);
            let tr = paren_tokens(*r);
            let ll = pl.len() as int;
            let rl = pr.len() as int;
            let i1 = i + 1 + ll;
            let i2 = i1 + 1 + rl;

            assert(p[0] == '(');
            assert(forall|k: int| 0 <= k < ll ==> p[1 + k] == #[trigger] pl[k]);
            assert(p[1 + ll] == op);
            assert(forall|k: int| 0 <= k < rl ==> p[2 + ll + k] == #[trigger] pr[k]);
            assert(p[n - 1] == ')');

            // The opening parenthesis is one operator token.
            assert(t[i] == '(' && !is_digit('(') && !is_space('('));
            assert(tokens_from(t, i) == with_prefix(
                seq![SpecToken::Op('(')],
                tokens_from(t, i + 1),
            ));

            // The left operand's text scans to its token spelling; the
            // operator after it cannot extend a literal.
            assert(t.subrange(i + 1, i1) =~= pl);
            assert(t[i1] == op && !is_num_char(op));
            lemma_scan_paren_text(*l, t, i + 1);

            // The operator is one token.
            assert(!is_digit(op) && !is_space(op) && is_oper_char(op));
            assert(tokens_from(t, i1) == with_prefix(
                seq![SpecToken::Op(op)],
                tokens_from(t, i1 + 1),
            ));

            // The right operand's text scans to its token spelling; the
            // closing parenthesis after it cannot extend a literal.
            assert(t.subrange(i1 + 1, i2) =~= pr);
            assert(t[i2] == ')' && !is_num_char(')'));
            lemma_scan_paren_text(*r, t, i1 + 1);

            // The closing parenthesis is one token.
            assert(tokens_from(t, i2) == with_prefix(
                seq![SpecToken::Op(')')],
                tokens_from(t, i2 + 1),
            ));

            // Gather the five pieces.
            let rest = tokens_from(t, i2 + 1);
            lemma_with_prefix_assoc(tr, seq![SpecToken::Op(')')], rest);
            lemma_with_prefix_assoc(seq![SpecToken::Op(op)], tr + seq![SpecToken::Op(')')], rest);
            lemma_with_prefix_assoc(
                tl,
                seq![SpecToken::Op(op)] + (tr + seq![SpecToken::Op(')')]),
                rest,
            );
            lemma_with_prefix_assoc(
                seq![SpecToken::Op('(')],
                tl + (seq![SpecToken::Op(op)] + (tr + seq![SpecToken::Op(')')])),
                rest,
            );
            assert(seq![SpecToken::Op('(')] + (tl + (seq![SpecToken::Op(op)] + (tr + seq![
                SpecToken::Op(')'),
            ]))) =~= paren_tokens(e));
            assert(i2 + 1 == i + n);
        },
    }
}

/// Law: a fully parenthesized expression text evaluates to exactly its tree.
///
/// For every well-formed tree, tokenizing the tree's fully parenthesized
/// text yields its token spelling, and evaluating returns the tree itself:
/// on fully parenthesized input the calculator computes the standard,
/// parenthesis-directed recursive evaluation. (For `^`, which this machine
/// reduces left-to-right when parentheses are omitted, see the scenario
/// tests.)
pub proof fn lemma_paren_text_evaluates(e: SpecExpr)
    requires
        wf_text_expr(e),
    ensures
        tokenize(paren_text(e), paren_text(e)) == Ok::<Seq<SpecToken>, SpecError>(paren_tokens(e)),
        calculate_spec(paren_text(e), paren_text(e)) == Ok::<SpecExpr, SpecError>(e),
{
    let t = paren_text(e);
    lemma_paren_text_len(e);
    assert(t.subrange(0, t.len() as int) =~= t);
    lemma_scan_paren_text(e, t, 0);
    assert(tokens_from(t, t.len() as int) == Ok::<Seq<SpecToken>, SpecError>(
        Seq::<SpecToken>::empty(),
    ));
    assert(paren_tokens(e) + Seq::<SpecToken>::empty() =~= paren_tokens(e));
    lemma_wf_text_expr_wf(e);
    lemma_fully_parenthesized(e, t);
}

} // verus!
