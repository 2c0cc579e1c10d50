//! Reading expressions back: an expression of the shape that the parser builds
//! comes back from its canonical tokens, wherever they stand in a sequence of
//! tokens.

use crate::grammar::{
    accept, is_operator, spec_args, spec_chain, spec_expr, spec_factor, spec_operand,
    starts_expression, token_at, Ast,
};
use crate::lexer::{TokenType, TokenView};
use crate::shape::{are_arguments, fits, is_condition, is_expression, leading, starts_bare};
use crate::serializer::{
    args_tokens, bare_tokens, level_of, node_operator, operand_tokens, token, type_level,
};
use vstd::prelude::*;

verus! {

/// The tokens `part` stand in `toks` from `pos` on.
#[verifier::opaque]
pub open spec fn reads(toks: Seq<TokenView>, pos: int, part: Seq<TokenView>) -> bool {
    &&& 0 <= pos
    &&& pos + part.len() <= toks.len()
    &&& forall|i: int| 0 <= i < part.len() ==> toks[pos + i] == #[trigger] part[i]
}

/// Where two parts stand one after the other, each stands in its place.
pub proof fn lemma_reads_parts(
    toks: Seq<TokenView>,
    pos: int,
    first: Seq<TokenView>,
    second: Seq<TokenView>,
)
    requires
        reads(toks, pos, first + second),
    ensures
        reads(toks, pos, first),
        reads(toks, pos + first.len(), second),
{
    reveal(reads);
    let whole = first + second;
    assert forall|i: int| 0 <= i < first.len() implies toks[pos + i] == #[trigger] first[i] by {
        assert(whole[i] == first[i]);
    }
    assert forall|i: int| 0 <= i < second.len() implies toks[pos + first.len() + i]
        == #[trigger] second[i] by {
        assert(whole[first.len() + i] == second[i]);
    }
}

/// The token at a position inside a part that stands in `toks`.
pub proof fn lemma_reads_token(toks: Seq<TokenView>, pos: int, part: Seq<TokenView>, i: int)
    requires
        reads(toks, pos, part),
        0 <= i < part.len(),
    ensures
        token_at(toks, pos + i) == Some(part[i]),
        pos >= 0,
        pos + part.len() <= toks.len(),
{
    reveal(reads);
}

/// The token at `pos` can stand behind an operand of `level`: there is one,
/// it is no operator of `level` or of a tighter level, and no opening
/// parenthesis.
pub open spec fn closes(toks: Seq<TokenView>, pos: int, level: nat) -> bool {
    match token_at(toks, pos) {
        Some(t) => t.ttype != TokenType::Opt && (type_level(t.ttype) < level || type_level(
            t.ttype,
        ) == 4),
        None => false,
    }
}

/// A token type is an operator of a level exactly if that is its level.
pub proof fn lemma_operator_level(level: nat, ttype: TokenType)
    ensures
        is_operator(level, ttype) <==> level < 4 && type_level(ttype) == level,
{
}

/// The first operand of the chain of `level` that the tree is: the tree
/// itself where it is no binary node of `level`.
pub open spec fn chain_head(node: Ast, level: nat) -> Ast
    decreases node,
{
    match node {
        Ast::BinOpNode { op, left, right } => if level_of(node) == level {
            chain_head(*left, level)
        } else {
            node
        },
        _ => node,
    }
}

/// The canonical tokens of the chain of `level` that the tree is, without
/// the tokens of its first operand.
pub open spec fn chain_tail(node: Ast, level: nat) -> Seq<TokenView>
    decreases node,
{
    match node {
        Ast::BinOpNode { op, left, right } => if level_of(node) == level {
            chain_tail(*left, level) + seq![token(node_operator(node), op)] + operand_tokens(
                *right,
                level + 1,
            )
        } else {
            Seq::empty()
        },
        _ => Seq::empty(),
    }
}

/// The tree with `first` in the place of the first operand of its chain of
/// `level`.
pub open spec fn chain_with(node: Ast, level: nat, first: Ast) -> Ast
    decreases node,
{
    match node {
        Ast::BinOpNode { op, left, right } => if level_of(node) == level {
            Ast::BinOpNode { op, left: Box::new(chain_with(*left, level, first)), right }
        } else {
            first
        },
        _ => first,
    }
}

/// A chain is its first operand followed by its tail, and putting its first
/// operand in its own place changes nothing.
pub proof fn lemma_chain_parts(node: Ast, level: nat)
    requires
        is_expression(node),
        fits(node, level),
        level < 4,
    ensures
        operand_tokens(node, level) == operand_tokens(chain_head(node, level), level + 1)
            + chain_tail(node, level),
        chain_with(node, level, chain_head(node, level)) == node,
        is_expression(chain_head(node, level)),
        fits(chain_head(node, level), level + 1),
        level_of(node) == level ==> chain_tail(node, level).len() > 0 && type_level(
            chain_tail(node, level)[0].ttype,
        ) == level && chain_tail(node, level)[0].ttype != TokenType::Opt,
        starts_bare(node, level) ==> starts_bare(chain_head(node, level), level + 1),
    decreases node,
{
    match node {
        Ast::BinOpNode { op, left, right } => {
            if level_of(node) == level {
                lemma_chain_parts(*left, level);
                let head = operand_tokens(chain_head(*left, level), level + 1);
                let tail = chain_tail(*left, level);
                let rest = seq![token(node_operator(node), op)] + operand_tokens(
                    *right,
                    level + 1,
                );
                assert(operand_tokens(node, level) =~= head + chain_tail(node, level));
                if level_of(*left) == level {
                    assert(chain_tail(node, level)[0] == tail[0]);
                } else {
                    assert(tail.len() == 0);
                    assert(chain_tail(node, level)[0] == token(node_operator(node), op));
                }
            } else {
                assert(operand_tokens(node, level) =~= operand_tokens(node, level + 1)
                    + chain_tail(node, level));
            }
        },
        _ => {
            assert(operand_tokens(node, level) =~= operand_tokens(node, level + 1) + chain_tail(
                node,
                level,
            ));
        },
    }
}

/// An expression that starts bare has tokens, and the first of them has the
/// type with which the expression starts, which can start an expression.
pub proof fn lemma_first_token(node: Ast, level: nat)
    requires
        is_expression(node),
        starts_bare(node, level),
    ensures
        operand_tokens(node, level) == bare_tokens(node),
        bare_tokens(node).len() > 0,
        bare_tokens(node)[0].ttype == leading(node),
        starts_expression(leading(node)),
    decreases node,
{
    match node {
        Ast::BinOpNode { op, left, right } => {
            lemma_first_token(*left, level_of(node));
        },
        _ => {},
    }
}

/// An expression has tokens, whatever its place.
pub proof fn lemma_some_tokens(node: Ast, level: nat)
    requires
        is_expression(node),
    ensures
        operand_tokens(node, level).len() > 0,
    decreases node,
{
    match node {
        Ast::BinOpNode { op, left, right } => {
            lemma_some_tokens(*left, level_of(node));
        },
        _ => {},
    }
}

/// The first operand of a chain is a part of the chain.
pub proof fn lemma_chain_head_is_part(node: Ast, level: nat)
    requires
        level_of(node) == level,
        level < 4,
    ensures
        decreases_to!(node => chain_head(node, level)),
    decreases node,
{
    match node {
        Ast::BinOpNode { op, left, right } => {
            if level_of(*left) == level {
                lemma_chain_head_is_part(*left, level);
            }
        },
        _ => {},
    }
}

/// Whether the canonical tokens of the tree as an operand of `level` stand in
/// parentheses.
pub open spec fn wrapped(node: Ast, level: nat) -> bool {
    level_of(node) < level
}

/// An operand comes back from its canonical tokens.
pub proof fn lemma_operand_returns(toks: Seq<TokenView>, pos: int, node: Ast, level: nat)
    requires
        level <= 4,
        is_expression(node),
        fits(node, level),
        reads(toks, pos, operand_tokens(node, level)),
        closes(toks, pos + operand_tokens(node, level).len(), level),
    ensures
        spec_operand(toks, pos, level) == accept(node, pos + operand_tokens(node, level).len()),
    decreases node, if wrapped(node, level) {
        1nat
    } else {
        0nat
    }, 5 - level,
{
    let tokens = operand_tokens(node, level);
    let end = pos + tokens.len();
    lemma_some_tokens(node, level);
    lemma_reads_token(toks, pos, tokens, 0);
    if level < 4 {
        let follow = token_at(toks, end)->0;
        lemma_operator_level(level, follow.ttype);
        if level_of(node) == level {
            lemma_chain_parts(node, level);
            let head = chain_head(node, level);
            let head_tokens = operand_tokens(head, level + 1);
            let tail = chain_tail(node, level);
            lemma_reads_parts(toks, pos, head_tokens, tail);
            lemma_reads_token(toks, pos + head_tokens.len(), tail, 0);
            lemma_some_tokens(head, level + 1);
            lemma_chain_head_is_part(node, level);
            lemma_operand_returns(toks, pos, head, level + 1);
            lemma_chain_returns(toks, pos + head_tokens.len(), node, level, head);
        } else {
            assert(operand_tokens(node, level) == operand_tokens(node, level + 1));
            lemma_operand_returns(toks, pos, node, level + 1);
            assert(spec_chain(toks, end, level, node) == accept(node, end));
        }
    } else {
        assert(spec_operand(toks, pos, level) == spec_factor(toks, pos));
        match node {
            Ast::FuncCall { name, arguments } => {
                let start = seq![token(TokenType::Iden, name), token(TokenType::Opt, "("@)];
                lemma_reads_parts(toks, pos, start, args_tokens(arguments, 0));
                lemma_reads_token(toks, pos, start, 0);
                lemma_reads_token(toks, pos, start, 1);
                assert(arguments.take(0) =~= Seq::empty());
                lemma_args_return(toks, pos + 2, arguments, 0);
            },
            Ast::BinOpNode { op, left, right } => {
                let open = seq![token(TokenType::Opt, "("@)];
                let close = seq![token(TokenType::Cpt, ")"@)];
                let inside = bare_tokens(node);
                lemma_reads_parts(toks, pos, open + inside, close);
                lemma_reads_parts(toks, pos, open, inside);
                lemma_reads_token(toks, pos, open, 0);
                lemma_reads_token(toks, pos + 1 + inside.len(), close, 0);
                lemma_first_token(node, 0);
                lemma_expr_returns(toks, pos + 1, node);
            },
            _ => {},
        }
    }
}

/// The rest of a chain comes back from its canonical tokens: parsing it with
/// any tree as what came before gives what parsing gives behind it with the
/// whole chain as what came before.
pub proof fn lemma_chain_returns(toks: Seq<TokenView>, pos: int, node: Ast, level: nat, left: Ast)
    requires
        level < 4,
        is_expression(node),
        reads(toks, pos, chain_tail(node, level)),
        closes(toks, pos + chain_tail(node, level).len(), level + 1),
    ensures
        spec_chain(toks, pos, level, left) == spec_chain(
            toks,
            pos + chain_tail(node, level).len(),
            level,
            chain_with(node, level, left),
        ),
    decreases node, 0nat, 0nat,
{
    match node {
        Ast::BinOpNode { op, left: first, right } => {
            if level_of(node) == level {
                let before = chain_tail(*first, level);
                let sign = seq![token(node_operator(node), op)];
                let after = operand_tokens(*right, level + 1);
                lemma_reads_parts(toks, pos, before + sign, after);
                lemma_reads_parts(toks, pos, before, sign);
                lemma_reads_token(toks, pos + before.len(), sign, 0);
                lemma_operator_level(level, node_operator(node));
                lemma_chain_returns(toks, pos, *first, level, left);
                lemma_some_tokens(*right, level + 1);
                lemma_operand_returns(toks, pos + before.len() + 1, *right, level + 1);
            }
        },
        _ => {},
    }
}

/// An expression comes back from its canonical tokens.
pub proof fn lemma_expr_returns(toks: Seq<TokenView>, pos: int, node: Ast)
    requires
        is_expression(node),
        starts_bare(node, 0),
        reads(toks, pos, bare_tokens(node)),
        closes(toks, pos + bare_tokens(node).len(), 0),
    ensures
        spec_expr(toks, pos, false) == accept(node, pos + bare_tokens(node).len()),
    decreases node, 0nat, 6nat,
{
    lemma_first_token(node, 0);
    lemma_reads_token(toks, pos, bare_tokens(node), 0);
    lemma_operand_returns(toks, pos, node, 0);
}

/// The arguments from index `from` on come back from their canonical tokens.
pub proof fn lemma_args_return(toks: Seq<TokenView>, pos: int, args: Seq<Ast>, from: nat)
    requires
        are_arguments(args),
        from < args.len() || (from == 0 && args.len() == 0),
        reads(toks, pos, args_tokens(args, from)),
    ensures
        spec_args(toks, pos, args.take(from as int)) == accept(
            args,
            pos + args_tokens(args, from).len(),
        ),
    decreases args, args.len() - from, 0nat,
{
    let tokens = args_tokens(args, from);
    lemma_reads_token(toks, pos, tokens, 0);
    if from >= args.len() {
        assert(args.take(from as int) =~= args);
    } else {
        let node = args[from as int];
        let first = operand_tokens(node, 0);
        let comma = seq![token(TokenType::Com, ","@)];
        let rest = args_tokens(args, from + 1);
        lemma_first_token(node, 0);
        assert(args.take(from as int).push(node) =~= args.take(from as int + 1));
        assert(tokens[0] == first[0]);
        if from + 1 == args.len() {
            lemma_reads_parts(toks, pos, first, rest);
            lemma_reads_token(toks, pos + first.len(), rest, 0);
            lemma_expr_returns(toks, pos, node);
            assert(args.take(from as int + 1) =~= args);
        } else {
            lemma_reads_parts(toks, pos, first + comma, rest);
            lemma_reads_parts(toks, pos, first, comma);
            lemma_reads_token(toks, pos + first.len(), comma, 0);
            lemma_expr_returns(toks, pos, node);
            lemma_args_return(toks, pos + first.len() + 1, args, from + 1);
        }
    }
}

/// Where three parts stand one after the other, each stands in its place.
pub proof fn lemma_reads_three(
    toks: Seq<TokenView>,
    pos: int,
    first: Seq<TokenView>,
    second: Seq<TokenView>,
    third: Seq<TokenView>,
)
    requires
        reads(toks, pos, first + second + third),
    ensures
        reads(toks, pos, first),
        reads(toks, pos + first.len(), second),
        reads(toks, pos + first.len() + second.len(), third),
{
    lemma_reads_parts(toks, pos, first + second, third);
    lemma_reads_parts(toks, pos, first, second);
}

/// An expression with a semicolon behind it comes back from its canonical
/// tokens.
pub proof fn lemma_terminated_returns(toks: Seq<TokenView>, pos: int, node: Ast)
    requires
        is_condition(node),
        reads(toks, pos, bare_tokens(node)),
        token_at(toks, pos + bare_tokens(node).len()) == Some(token(TokenType::Scln, ";"@)),
    ensures
        spec_expr(toks, pos, true) == accept(node, pos + bare_tokens(node).len() + 1),
{
    lemma_first_token(node, 0);
    lemma_reads_token(toks, pos, bare_tokens(node), 0);
    lemma_operand_returns(toks, pos, node, 0);
}

/// A sequence of tokens stands in itself from the start on.
pub proof fn lemma_reads_start(first: Seq<TokenView>, second: Seq<TokenView>)
    ensures
        reads(first + second, 0, first),
        reads(first + second, first.len() as int, second),
{
    reveal(reads);
    let whole = first + second;
    assert forall|i: int| 0 <= i < first.len() implies whole[0 + i] == #[trigger] first[i] by {}
    assert forall|i: int| 0 <= i < second.len() implies whole[first.len() + i]
        == #[trigger] second[i] by {}
}

} // verus!
