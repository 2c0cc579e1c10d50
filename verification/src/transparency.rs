//! Line numbers serve diagnostics only: they decide nothing in the parser.
//! Two token sequences that agree in the types and texts of their tokens give
//! the same trees, stop at the same positions, and fail alike, whatever the
//! lines of the tokens. So white space and comments between tokens, which
//! change nothing but line numbers, do not change what is parsed.

use crate::grammar::{
    advance, is_operator, levels, remaining, spec_args, spec_block, spec_block_rest, spec_call,
    spec_chain, spec_condition_block, spec_elifs, spec_expr, spec_factor, spec_func_def,
    spec_if_else, spec_loop, spec_operand, spec_params, spec_params_rest, spec_statement,
    token_at, Ast, ParseFailure, Parsed,
};
use crate::lexer::{TokenType, TokenView};
use vstd::prelude::*;

verus! {

/// The two sequences agree in the type and text of each token.
pub open spec fn same_tokens(a: Seq<TokenView>, b: Seq<TokenView>) -> bool {
    &&& a.len() == b.len()
    &&& forall|i: int|
        0 <= i < a.len() ==> (#[trigger] a[i]).ttype == b[i].ttype && a[i].value == b[i].value
}

/// The two failures agree in all but the line.
pub open spec fn same_failure(x: ParseFailure, y: ParseFailure) -> bool {
    match (x, y) {
        (ParseFailure::UnexpectedToken(s, _), ParseFailure::UnexpectedToken(t, _)) => s == t,
        (ParseFailure::UnterminatedBlock(_), ParseFailure::UnterminatedBlock(_)) => true,
        (ParseFailure::ExpectedSemicolon(_), ParseFailure::ExpectedSemicolon(_)) => true,
        (ParseFailure::ExpectedToken(s, _), ParseFailure::ExpectedToken(t, _)) => s == t,
        _ => false,
    }
}

/// The two outcomes stop at the same position, and either hold the same value
/// or failures that agree in all but the line.
pub open spec fn same_outcome<T>(x: Parsed<T>, y: Parsed<T>) -> bool {
    &&& x.pos == y.pos
    &&& match (x.result, y.result) {
        (Ok(u), Ok(v)) => u == v,
        (Err(e), Err(f)) => same_failure(e, f),
        _ => false,
    }
}

/// The tokens at a position agree in type and text, or both are missing.
proof fn lemma_same_token(a: Seq<TokenView>, b: Seq<TokenView>, pos: int)
    requires
        same_tokens(a, b),
    ensures
        token_at(a, pos) is Some <==> token_at(b, pos) is Some,
        token_at(a, pos) matches Some(t) ==> t.ttype == token_at(b, pos)->0.ttype && t.value
            == token_at(b, pos)->0.value,
        advance(a, pos) == advance(b, pos),
        remaining(a, pos) == remaining(b, pos),
{
    if 0 <= pos < a.len() {
        assert(a[pos].ttype == b[pos].ttype);
    }
}

/// Lines do not matter to a factor.
pub proof fn lemma_factor_ignores_lines(a: Seq<TokenView>, b: Seq<TokenView>, pos: int)
    requires
        same_tokens(a, b),
    ensures
        same_outcome(spec_factor(a, pos), spec_factor(b, pos)),
    decreases remaining(a, pos), 5int,
{
    lemma_same_token(a, b, pos);
    lemma_same_token(a, b, pos + 1);
    if let Some(t) = token_at(a, pos) {
        if t.ttype == TokenType::Iden {
            lemma_call_ignores_lines(a, b, pos);
        } else if t.ttype == TokenType::Opt {
            lemma_expr_ignores_lines(a, b, pos + 1, false);
            lemma_same_token(a, b, spec_expr(a, pos + 1, false).pos);
        }
    }
}

/// Lines do not matter to a call.
pub proof fn lemma_call_ignores_lines(a: Seq<TokenView>, b: Seq<TokenView>, pos: int)
    requires
        same_tokens(a, b),
    ensures
        same_outcome(spec_call(a, pos), spec_call(b, pos)),
    decreases remaining(a, pos), 4int,
{
    lemma_same_token(a, b, pos);
    if token_at(a, pos) is Some {
        lemma_args_ignore_lines(a, b, pos + 2, Seq::empty());
    }
}

/// Lines do not matter to an argument list.
pub proof fn lemma_args_ignore_lines(
    a: Seq<TokenView>,
    b: Seq<TokenView>,
    pos: int,
    args: Seq<Ast>,
)
    requires
        same_tokens(a, b),
    ensures
        same_outcome(spec_args(a, pos, args), spec_args(b, pos, args)),
    decreases remaining(a, pos), 12int,
{
    lemma_same_token(a, b, pos);
    if let Some(t) = token_at(a, pos) {
        if t.ttype != TokenType::Cpt {
            lemma_expr_ignores_lines(a, b, pos, false);
            let arg = spec_expr(a, pos, false);
            lemma_same_token(a, b, arg.pos);
            if let Ok(node) = arg.result {
                if token_at(a, arg.pos) is Some && arg.pos > pos {
                    lemma_args_ignore_lines(a, b, arg.pos + 1, args.push(node));
                }
            }
        }
    }
}

/// Lines do not matter to an operand.
pub proof fn lemma_operand_ignores_lines(
    a: Seq<TokenView>,
    b: Seq<TokenView>,
    pos: int,
    level: nat,
)
    requires
        same_tokens(a, b),
    ensures
        same_outcome(spec_operand(a, pos, level), spec_operand(b, pos, level)),
    decreases remaining(a, pos), if level < levels() {
        10 - level
    } else {
        6
    },
{
    if level >= levels() {
        lemma_factor_ignores_lines(a, b, pos);
    } else {
        lemma_operand_ignores_lines(a, b, pos, level + 1);
        let first = spec_operand(a, pos, level + 1);
        if let Ok(left) = first.result {
            if first.pos > pos {
                lemma_chain_ignores_lines(a, b, first.pos, level, left);
            }
        }
    }
}

/// Lines do not matter to the rest of a chain.
pub proof fn lemma_chain_ignores_lines(
    a: Seq<TokenView>,
    b: Seq<TokenView>,
    pos: int,
    level: nat,
    left: Ast,
)
    requires
        same_tokens(a, b),
    ensures
        same_outcome(spec_chain(a, pos, level, left), spec_chain(b, pos, level, left)),
    decreases remaining(a, pos), 3int,
{
    lemma_same_token(a, b, pos);
    if let Some(op) = token_at(a, pos) {
        if is_operator(level, op.ttype) {
            lemma_operand_ignores_lines(a, b, pos + 1, level + 1);
            let right = spec_operand(a, pos + 1, level + 1);
            if let Ok(node) = right.result {
                if right.pos > pos {
                    lemma_chain_ignores_lines(
                        a,
                        b,
                        right.pos,
                        level,
                        Ast::BinOpNode {
                            op: op.value,
                            left: Box::new(left),
                            right: Box::new(node),
                        },
                    );
                }
            }
        }
    }
}

/// Lines do not matter to an expression.
pub proof fn lemma_expr_ignores_lines(
    a: Seq<TokenView>,
    b: Seq<TokenView>,
    pos: int,
    terminate: bool,
)
    requires
        same_tokens(a, b),
    ensures
        same_outcome(spec_expr(a, pos, terminate), spec_expr(b, pos, terminate)),
    decreases remaining(a, pos), 11int,
{
    lemma_same_token(a, b, pos);
    lemma_operand_ignores_lines(a, b, pos, 0);
    lemma_same_token(a, b, spec_operand(a, pos, 0).pos);
}

/// Lines do not matter to a parameter list.
pub proof fn lemma_params_ignore_lines(a: Seq<TokenView>, b: Seq<TokenView>, pos: int)
    requires
        same_tokens(a, b),
    ensures
        same_outcome(spec_params(a, pos), spec_params(b, pos)),
{
    lemma_same_token(a, b, pos);
    lemma_same_token(a, b, advance(a, pos));
    lemma_params_rest_ignores_lines(a, b, advance(a, pos), Seq::empty());
}

/// Lines do not matter to the rest of a parameter list.
pub proof fn lemma_params_rest_ignores_lines(
    a: Seq<TokenView>,
    b: Seq<TokenView>,
    pos: int,
    params: Seq<Ast>,
)
    requires
        same_tokens(a, b),
    ensures
        same_outcome(spec_params_rest(a, pos, params), spec_params_rest(b, pos, params)),
    decreases remaining(a, pos),
{
    lemma_same_token(a, b, pos);
    lemma_same_token(a, b, pos + 1);
    if let Some(t) = token_at(a, pos) {
        if t.ttype != TokenType::Cpt && token_at(a, pos + 1) is Some {
            lemma_params_rest_ignores_lines(a, b, pos + 2, params.push(Ast::Identifier(t.value)));
        }
    }
}

/// Lines do not matter to a statement: the two sequences give the same tree
/// and stop at the same position, or fail alike.
pub proof fn lemma_statement_ignores_lines(a: Seq<TokenView>, b: Seq<TokenView>, pos: int)
    requires
        same_tokens(a, b),
    ensures
        same_outcome(spec_statement(a, pos), spec_statement(b, pos)),
    decreases remaining(a, pos), 4int,
{
    lemma_same_token(a, b, pos);
    lemma_same_token(a, b, pos + 1);
    lemma_same_token(a, b, pos + 2);
    if let Some(t) = token_at(a, pos) {
        if t.ttype == TokenType::Func {
            lemma_func_def_ignores_lines(a, b, pos + 1);
        } else if t.ttype == TokenType::If {
            lemma_if_else_ignores_lines(a, b, pos + 1);
        } else if t.ttype == TokenType::Loop {
            lemma_loop_ignores_lines(a, b, pos + 1);
        } else if t.ttype == TokenType::Let {
            lemma_expr_ignores_lines(a, b, pos + 3, true);
        } else if t.ttype == TokenType::Return {
            lemma_expr_ignores_lines(a, b, pos + 1, true);
            lemma_same_token(a, b, spec_expr(a, pos + 1, true).pos);
        } else if t.ttype == TokenType::Iden {
            lemma_call_ignores_lines(a, b, pos);
            lemma_same_token(a, b, spec_call(a, pos).pos);
            lemma_expr_ignores_lines(a, b, pos + 2, true);
        } else {
            lemma_expr_ignores_lines(a, b, pos, true);
        }
    }
}

/// Lines do not matter to a function definition.
pub proof fn lemma_func_def_ignores_lines(a: Seq<TokenView>, b: Seq<TokenView>, pos: int)
    requires
        same_tokens(a, b),
    ensures
        same_outcome(spec_func_def(a, pos), spec_func_def(b, pos)),
    decreases remaining(a, pos), 9int,
{
    lemma_same_token(a, b, pos);
    if token_at(a, pos) is Some {
        lemma_params_ignore_lines(a, b, pos + 1);
        let params = spec_params(a, pos + 1);
        if params.result is Ok && params.pos > pos {
            lemma_block_ignores_lines(a, b, params.pos);
        }
    }
}

/// Lines do not matter to a condition with its block.
pub proof fn lemma_condition_block_ignores_lines(a: Seq<TokenView>, b: Seq<TokenView>, pos: int)
    requires
        same_tokens(a, b),
    ensures
        same_outcome(spec_condition_block(a, pos), spec_condition_block(b, pos)),
    decreases remaining(a, pos), 7int,
{
    lemma_same_token(a, b, pos);
    if token_at(a, pos) is Some {
        lemma_expr_ignores_lines(a, b, pos + 1, false);
        let condition = spec_expr(a, pos + 1, false);
        lemma_same_token(a, b, condition.pos);
        if condition.result is Ok && token_at(a, condition.pos) is Some && condition.pos > pos {
            lemma_block_ignores_lines(a, b, condition.pos + 1);
        }
    }
}

/// Lines do not matter to a loop.
pub proof fn lemma_loop_ignores_lines(a: Seq<TokenView>, b: Seq<TokenView>, pos: int)
    requires
        same_tokens(a, b),
    ensures
        same_outcome(spec_loop(a, pos), spec_loop(b, pos)),
    decreases remaining(a, pos), 9int,
{
    lemma_condition_block_ignores_lines(a, b, pos);
}

/// Lines do not matter to a conditional.
pub proof fn lemma_if_else_ignores_lines(a: Seq<TokenView>, b: Seq<TokenView>, pos: int)
    requires
        same_tokens(a, b),
    ensures
        same_outcome(spec_if_else(a, pos), spec_if_else(b, pos)),
    decreases remaining(a, pos), 9int,
{
    lemma_condition_block_ignores_lines(a, b, pos);
    let then = spec_condition_block(a, pos);
    if let Ok(pair) = then.result {
        if then.pos > pos {
            lemma_elifs_ignore_lines(a, b, then.pos, pair.0, pair.1, Seq::empty());
        }
    }
}

/// Lines do not matter to the rest of a conditional.
pub proof fn lemma_elifs_ignore_lines(
    a: Seq<TokenView>,
    b: Seq<TokenView>,
    pos: int,
    condition: Ast,
    then_branch: Seq<Ast>,
    elifs: Seq<(Ast, Seq<Ast>)>,
)
    requires
        same_tokens(a, b),
    ensures
        same_outcome(
            spec_elifs(a, pos, condition, then_branch, elifs),
            spec_elifs(b, pos, condition, then_branch, elifs),
        ),
    decreases remaining(a, pos), 8int,
{
    lemma_same_token(a, b, pos);
    if let Some(t) = token_at(a, pos) {
        if t.ttype == TokenType::Elif {
            lemma_condition_block_ignores_lines(a, b, pos + 1);
            let clause = spec_condition_block(a, pos + 1);
            if let Ok(pair) = clause.result {
                if clause.pos > pos {
                    lemma_elifs_ignore_lines(
                        a,
                        b,
                        clause.pos,
                        condition,
                        then_branch,
                        elifs.push(pair),
                    );
                }
            }
        } else if t.ttype == TokenType::Else {
            lemma_block_ignores_lines(a, b, pos + 1);
        }
    }
}

/// Lines do not matter to a block.
pub proof fn lemma_block_ignores_lines(a: Seq<TokenView>, b: Seq<TokenView>, pos: int)
    requires
        same_tokens(a, b),
    ensures
        same_outcome(spec_block(a, pos), spec_block(b, pos)),
    decreases remaining(a, pos), 6int,
{
    lemma_same_token(a, b, pos);
    lemma_same_token(a, b, pos + 1);
    if token_at(a, pos) is Some {
        if let Some(first) = token_at(a, pos + 1) {
            lemma_block_rest_ignores_lines(
                a,
                b,
                pos + 1,
                first.line_num,
                token_at(b, pos + 1)->0.line_num,
                Seq::empty(),
            );
        }
    }
}

/// Lines do not matter to the rest of a block, not even the line that an
/// unterminated block would report.
pub proof fn lemma_block_rest_ignores_lines(
    a: Seq<TokenView>,
    b: Seq<TokenView>,
    pos: int,
    line_a: u32,
    line_b: u32,
    done: Seq<Ast>,
)
    requires
        same_tokens(a, b),
    ensures
        same_outcome(spec_block_rest(a, pos, line_a, done), spec_block_rest(b, pos, line_b, done)),
    decreases remaining(a, pos), 5int,
{
    lemma_same_token(a, b, pos);
    if let Some(t) = token_at(a, pos) {
        if t.ttype != TokenType::Ccl && t.ttype != TokenType::Eof {
            lemma_statement_ignores_lines(a, b, pos);
            let statement = spec_statement(a, pos);
            if let Ok(node) = statement.result {
                if statement.pos > pos {
                    lemma_block_rest_ignores_lines(
                        a,
                        b,
                        statement.pos,
                        line_a,
                        line_b,
                        done.push(node),
                    );
                }
            }
        }
    }
}

} // verus!
