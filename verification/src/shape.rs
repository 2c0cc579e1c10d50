//! The shape of parsed trees: which trees the parser builds. A binary node has
//! a known operator, and each of its operands either binds tightly enough for
//! its place or stood in parentheses; an expression that stood in parentheses,
//! as an argument or as a condition starts with a token that can start an
//! expression.

use crate::grammar::{
    advance, at_end, is_operator, lemma_statement_advances, levels, listed, remaining, spec_args,
    spec_block, spec_block_rest, spec_call, spec_chain, spec_condition_block, spec_elifs,
    spec_expr, spec_factor, spec_func_def, spec_if_else, spec_loop, spec_operand, spec_params,
    spec_params_rest, spec_program, spec_statement, token_at, Ast,
};
use crate::lexer::{
    is_digit, is_word_start, lemma_lex_advances, scan_token, skip_blank, spec_lex, symbol_type,
    token_stream, word_type, TokenType, TokenView,
};
use crate::serializer::{level_of, node_operator, operator_type, token, type_level};
use vstd::prelude::*;

verus! {

/// Every operator token carries the text of its operator, as the tokens that
/// the lexer makes do.
pub open spec fn operators_spelled(toks: Seq<TokenView>) -> bool {
    forall|i: int|
        0 <= i < toks.len() && type_level((#[trigger] toks[i]).ttype) < 4 ==> operator_type(
            toks[i].value,
        ) == Some(toks[i].ttype)
}

/// The type of the first token of an expression that starts without a
/// parenthesis.
pub open spec fn leading(node: Ast) -> TokenType
    decreases node,
{
    match node {
        Ast::Number(_) => TokenType::Num,
        Ast::StrLiteral(_) => TokenType::Str,
        Ast::BoolNode(b) => if b {
            TokenType::True
        } else {
            TokenType::False
        },
        Ast::BinOpNode { op, left, right } => leading(*left),
        _ => TokenType::Iden,
    }
}

/// The canonical tokens of the tree as an operand of `level` start without a
/// parenthesis: the tree binds at `level` or tighter, and so on down its left
/// operands.
pub open spec fn starts_bare(node: Ast, level: nat) -> bool
    decreases node,
{
    &&& level_of(node) >= level
    &&& match node {
        Ast::BinOpNode { op, left, right } => starts_bare(*left, level_of(node)),
        _ => true,
    }
}

/// The tree can stand as an operand of `level`: it binds at `level` or
/// tighter, or it can stand in parentheses.
pub open spec fn fits(node: Ast, level: nat) -> bool {
    level_of(node) >= level || starts_bare(node, 0)
}

/// The tree is an expression as the parser builds them: each operator is a
/// known one, each operand fits its place, and each argument of a call can
/// start an expression.
pub open spec fn is_expression(node: Ast) -> bool
    decreases node,
{
    match node {
        Ast::Number(_) => true,
        Ast::StrLiteral(_) => true,
        Ast::BoolNode(_) => true,
        Ast::Identifier(_) => true,
        Ast::FuncCall { name, arguments } => forall|i: int|
            0 <= i < arguments.len() ==> is_expression(#[trigger] arguments[i]) && starts_bare(
                arguments[i],
                0,
            ),
        Ast::BinOpNode { op, left, right } => {
            &&& level_of(node) < 4
            &&& is_expression(*left)
            &&& is_expression(*right)
            &&& fits(*left, level_of(node))
            &&& fits(*right, level_of(node) + 1)
        },
        _ => false,
    }
}

/// Each tree of the sequence is an expression that can start one.
pub open spec fn are_arguments(args: Seq<Ast>) -> bool {
    forall|i: int|
        0 <= i < args.len() ==> is_expression(#[trigger] args[i]) && starts_bare(args[i], 0)
}

/// What holds of the tree that parsing an operand of `level` at `pos` gave.
pub open spec fn parsed_operand(toks: Seq<TokenView>, pos: int, level: nat, node: Ast) -> bool {
    &&& is_expression(node)
    &&& fits(node, level)
    &&& match token_at(toks, pos) {
        Some(t) => t.ttype != TokenType::Opt ==> starts_bare(node, level) && leading(node)
            == t.ttype,
        None => true,
    }
}

/// A factor that parses is an expression that fits any place.
pub proof fn lemma_factor_shape(toks: Seq<TokenView>, pos: int)
    requires
        operators_spelled(toks),
    ensures
        spec_factor(toks, pos).result matches Ok(node) ==> parsed_operand(toks, pos, 4, node),
    decreases remaining(toks, pos), 5int,
{
    if let Some(t) = token_at(toks, pos) {
        if t.ttype == TokenType::Iden {
            lemma_call_shape(toks, pos);
        } else if t.ttype == TokenType::Opt {
            lemma_expr_shape(toks, pos + 1, false);
        }
    }
}

/// A call that parses is an expression.
pub proof fn lemma_call_shape(toks: Seq<TokenView>, pos: int)
    requires
        operators_spelled(toks),
    ensures
        spec_call(toks, pos).result matches Ok(node) ==> is_expression(node) && level_of(node)
            == 4 && leading(node) == TokenType::Iden && starts_bare(node, 4),
    decreases remaining(toks, pos), 4int,
{
    if token_at(toks, pos) is Some {
        lemma_args_shape(toks, pos + 2, Seq::empty());
    }
}

/// The arguments of a list that parses are expressions that can start one.
pub proof fn lemma_args_shape(toks: Seq<TokenView>, pos: int, args: Seq<Ast>)
    requires
        operators_spelled(toks),
        are_arguments(args),
    ensures
        spec_args(toks, pos, args).result matches Ok(all) ==> are_arguments(all),
    decreases remaining(toks, pos), 12int,
{
    if let Some(t) = token_at(toks, pos) {
        if t.ttype != TokenType::Cpt {
            lemma_expr_shape(toks, pos, false);
            let arg = spec_expr(toks, pos, false);
            if let Ok(node) = arg.result {
                if token_at(toks, arg.pos) is Some && arg.pos > pos {
                    lemma_args_shape(toks, arg.pos + 1, args.push(node));
                }
            }
        }
    }
}

/// An operand that parses is an expression that fits its level.
pub proof fn lemma_operand_shape(toks: Seq<TokenView>, pos: int, level: nat)
    requires
        operators_spelled(toks),
        level <= 4,
    ensures
        spec_operand(toks, pos, level).result matches Ok(node) ==> parsed_operand(
            toks,
            pos,
            level,
            node,
        ),
    decreases remaining(toks, pos), if level < levels() {
        10 - level
    } else {
        6
    },
{
    if level >= levels() {
        lemma_factor_shape(toks, pos);
    } else {
        lemma_operand_shape(toks, pos, level + 1);
        let first = spec_operand(toks, pos, level + 1);
        if let Ok(left) = first.result {
            if first.pos > pos {
                lemma_chain_shape(toks, first.pos, level, left);
            }
        }
    }
}

/// A chain that parses is an expression that fits its level, and starts as
/// its first operand does.
pub proof fn lemma_chain_shape(toks: Seq<TokenView>, pos: int, level: nat, left: Ast)
    requires
        operators_spelled(toks),
        level < 4,
        is_expression(left),
        fits(left, level),
    ensures
        spec_chain(toks, pos, level, left).result matches Ok(node) ==> {
            &&& is_expression(node)
            &&& fits(node, level)
            &&& leading(node) == leading(left)
            &&& starts_bare(left, level) ==> starts_bare(node, level)
        },
    decreases remaining(toks, pos), 3int,
{
    if let Some(op) = token_at(toks, pos) {
        if is_operator(level, op.ttype) {
            lemma_operand_shape(toks, pos + 1, level + 1);
            let right = spec_operand(toks, pos + 1, level + 1);
            if let Ok(node) = right.result {
                if right.pos > pos {
                    let joined = Ast::BinOpNode {
                        op: op.value,
                        left: Box::new(left),
                        right: Box::new(node),
                    };
                    assert(type_level(toks[pos].ttype) == level);
                    assert(node_operator(joined) == op.ttype);
                    assert(level_of(joined) == level);
                    lemma_chain_shape(toks, right.pos, level, joined);
                }
            }
        }
    }
}

/// An expression that parses is an expression that can start one, and starts
/// with the type of its first token.
pub proof fn lemma_expr_shape(toks: Seq<TokenView>, pos: int, terminate: bool)
    requires
        operators_spelled(toks),
    ensures
        spec_expr(toks, pos, terminate).result matches Ok(node) ==> {
            &&& is_expression(node)
            &&& starts_bare(node, 0)
            &&& match token_at(toks, pos) {
                Some(t) => leading(node) == t.ttype,
                None => false,
            }
        },
    decreases remaining(toks, pos), 11int,
{
    lemma_operand_shape(toks, pos, 0);
}

/// Each tree of the sequence is an identifier.
pub open spec fn are_parameters(params: Seq<Ast>) -> bool {
    forall|i: int| 0 <= i < params.len() ==> (#[trigger] params[i]) is Identifier
}

/// The tree is an expression that can start one.
pub open spec fn is_condition(node: Ast) -> bool {
    is_expression(node) && starts_bare(node, 0)
}

/// The tree is a statement as the parser builds them. An expression that
/// stands as a statement starts with a literal, unless it is a call.
pub open spec fn is_statement(node: Ast) -> bool
    decreases node, 0nat,
{
    match node {
        Ast::ImportNode(_) => true,
        Ast::BreakNode => true,
        Ast::ReturnNode(value) => match value {
            Some(value) => is_condition(*value),
            None => true,
        },
        Ast::VarDecNode { name, value } => is_condition(*value),
        Ast::AssignNode { name, value } => is_condition(*value),
        Ast::FuncDef { name, arguments, block } => are_parameters(arguments) && are_statements(
            block,
        ),
        Ast::LoopNode { condition, block } => is_condition(*condition) && are_statements(block),
        Ast::IfElseNode { condition, then_branch, elif_branch, else_branch } => {
            &&& is_condition(*condition)
            &&& are_statements(then_branch)
            &&& are_clauses(elif_branch)
            &&& match else_branch {
                Some(block) => are_statements(block),
                None => true,
            }
        },
        Ast::FuncCall { name, arguments } => is_expression(node),
        Ast::Number(_) => true,
        Ast::StrLiteral(_) => true,
        Ast::BoolNode(_) => true,
        Ast::BinOpNode { op, left, right } => is_condition(node) && leading(node)
            != TokenType::Iden,
        _ => false,
    }
}

/// Each tree of the sequence is a statement.
pub open spec fn are_statements(statements: Seq<Ast>) -> bool
    decreases statements, 1nat,
{
    forall|i: int| 0 <= i < statements.len() ==> is_statement(#[trigger] statements[i])
}

/// Each clause of the sequence is a condition with statements.
pub open spec fn are_clauses(clauses: Seq<(Ast, Seq<Ast>)>) -> bool
    decreases clauses, 1nat,
{
    forall|i: int|
        0 <= i < clauses.len() ==> is_condition((#[trigger] clauses[i]).0) && are_statements(
            clauses[i].1,
        )
}

/// The parameters of a list that parses are identifiers.
pub proof fn lemma_params_shape(toks: Seq<TokenView>, pos: int)
    ensures
        spec_params(toks, pos).result matches Ok(params) ==> are_parameters(listed(params)),
{
    lemma_params_rest_shape(toks, advance(toks, pos), Seq::empty());
}

/// The parameters of the rest of a list that parses are identifiers.
pub proof fn lemma_params_rest_shape(toks: Seq<TokenView>, pos: int, params: Seq<Ast>)
    requires
        are_parameters(params),
    ensures
        spec_params_rest(toks, pos, params).result matches Ok(all) ==> are_parameters(listed(all)),
    decreases remaining(toks, pos),
{
    if let Some(t) = token_at(toks, pos) {
        if t.ttype != TokenType::Cpt && token_at(toks, pos + 1) is Some {
            lemma_params_rest_shape(toks, pos + 2, params.push(Ast::Identifier(t.value)));
        }
    }
}

/// A statement that parses is a statement, or the `Eof` tree where the
/// end-of-file token stands.
pub proof fn lemma_statement_shape(toks: Seq<TokenView>, pos: int)
    requires
        operators_spelled(toks),
    ensures
        spec_statement(toks, pos).result matches Ok(node) ==> match token_at(toks, pos) {
            Some(t) => if t.ttype == TokenType::Eof {
                node == Ast::Eof
            } else {
                is_statement(node)
            },
            None => false,
        },
    decreases remaining(toks, pos), 4int,
{
    if let Some(t) = token_at(toks, pos) {
        if t.ttype == TokenType::Func {
            lemma_func_def_shape(toks, pos + 1);
        } else if t.ttype == TokenType::If {
            lemma_if_else_shape(toks, pos + 1);
        } else if t.ttype == TokenType::Loop {
            lemma_loop_shape(toks, pos + 1);
        } else if t.ttype == TokenType::Let {
            lemma_expr_shape(toks, pos + 3, true);
        } else if t.ttype == TokenType::Return {
            lemma_expr_shape(toks, pos + 1, true);
        } else if t.ttype == TokenType::Iden {
            lemma_call_shape(toks, pos);
            lemma_expr_shape(toks, pos + 2, true);
        } else {
            lemma_expr_shape(toks, pos, true);
        }
    }
}

/// A function definition that parses is a statement.
pub proof fn lemma_func_def_shape(toks: Seq<TokenView>, pos: int)
    requires
        operators_spelled(toks),
    ensures
        spec_func_def(toks, pos).result matches Ok(node) ==> is_statement(node),
    decreases remaining(toks, pos), 9int,
{
    if token_at(toks, pos) is Some {
        lemma_params_shape(toks, pos + 1);
        let params = spec_params(toks, pos + 1);
        if params.result is Ok && params.pos > pos {
            lemma_block_shape(toks, params.pos);
        }
    }
}

/// A condition with its block that parses is a condition with statements.
pub proof fn lemma_condition_block_shape(toks: Seq<TokenView>, pos: int)
    requires
        operators_spelled(toks),
    ensures
        spec_condition_block(toks, pos).result matches Ok(pair) ==> is_condition(pair.0)
            && are_statements(pair.1),
    decreases remaining(toks, pos), 7int,
{
    if token_at(toks, pos) is Some {
        lemma_expr_shape(toks, pos + 1, false);
        let condition = spec_expr(toks, pos + 1, false);
        if condition.result is Ok && token_at(toks, condition.pos) is Some && condition.pos > pos {
            lemma_block_shape(toks, condition.pos + 1);
        }
    }
}

/// A loop that parses is a statement.
pub proof fn lemma_loop_shape(toks: Seq<TokenView>, pos: int)
    requires
        operators_spelled(toks),
    ensures
        spec_loop(toks, pos).result matches Ok(node) ==> is_statement(node),
    decreases remaining(toks, pos), 9int,
{
    lemma_condition_block_shape(toks, pos);
}

/// A conditional that parses is a statement.
pub proof fn lemma_if_else_shape(toks: Seq<TokenView>, pos: int)
    requires
        operators_spelled(toks),
    ensures
        spec_if_else(toks, pos).result matches Ok(node) ==> is_statement(node),
    decreases remaining(toks, pos), 9int,
{
    lemma_condition_block_shape(toks, pos);
    let then = spec_condition_block(toks, pos);
    if let Ok(pair) = then.result {
        if then.pos > pos {
            lemma_elifs_shape(toks, then.pos, pair.0, pair.1, Seq::empty());
        }
    }
}

/// The rest of a conditional that parses gives a statement.
pub proof fn lemma_elifs_shape(
    toks: Seq<TokenView>,
    pos: int,
    condition: Ast,
    then_branch: Seq<Ast>,
    elifs: Seq<(Ast, Seq<Ast>)>,
)
    requires
        operators_spelled(toks),
        is_condition(condition),
        are_statements(then_branch),
        are_clauses(elifs),
    ensures
        spec_elifs(toks, pos, condition, then_branch, elifs).result matches Ok(node)
            ==> is_statement(node),
    decreases remaining(toks, pos), 8int,
{
    if let Some(t) = token_at(toks, pos) {
        if t.ttype == TokenType::Elif {
            lemma_condition_block_shape(toks, pos + 1);
            let clause = spec_condition_block(toks, pos + 1);
            if let Ok(pair) = clause.result {
                if clause.pos > pos {
                    lemma_elifs_shape(toks, clause.pos, condition, then_branch, elifs.push(pair));
                }
            }
        } else if t.ttype == TokenType::Else {
            lemma_block_shape(toks, pos + 1);
        }
    }
}

/// The statements of a block that parses are statements.
pub proof fn lemma_block_shape(toks: Seq<TokenView>, pos: int)
    requires
        operators_spelled(toks),
    ensures
        spec_block(toks, pos).result matches Ok(statements) ==> are_statements(statements),
    decreases remaining(toks, pos), 6int,
{
    if token_at(toks, pos) is Some {
        if let Some(first) = token_at(toks, pos + 1) {
            lemma_block_rest_shape(toks, pos + 1, first.line_num, Seq::empty());
        }
    }
}

/// The statements of the rest of a block that parses are statements.
pub proof fn lemma_block_rest_shape(toks: Seq<TokenView>, pos: int, line: u32, done: Seq<Ast>)
    requires
        operators_spelled(toks),
        are_statements(done),
    ensures
        spec_block_rest(toks, pos, line, done).result matches Ok(statements) ==> are_statements(
            statements,
        ),
    decreases remaining(toks, pos), 5int,
{
    if let Some(t) = token_at(toks, pos) {
        if t.ttype != TokenType::Ccl && t.ttype != TokenType::Eof {
            lemma_statement_shape(toks, pos);
            let statement = spec_statement(toks, pos);
            if let Ok(node) = statement.result {
                if statement.pos > pos {
                    lemma_block_rest_shape(toks, statement.pos, line, done.push(node));
                }
            }
        }
    }
}

/// The rest of a program that parses without failure holds statements only.
pub proof fn lemma_program_shape(toks: Seq<TokenView>, pos: int, done: Seq<Ast>)
    requires
        operators_spelled(toks),
        are_statements(done),
    ensures
        spec_program(toks, pos, done).failure is None ==> are_statements(
            spec_program(toks, pos, done).statements,
        ),
    decreases remaining(toks, pos),
{
    if !at_end(toks, pos) {
        lemma_statement_shape(toks, pos);
        lemma_statement_advances(toks, pos);
        let statement = spec_statement(toks, pos);
        if let Ok(node) = statement.result {
            lemma_program_shape(toks, statement.pos, done.push(node));
        }
    }
}


/// An operator token that the lexer scans carries the text of its operator.
pub proof fn lemma_scan_spells_operator(buf: Seq<char>, pos: int, line: int)
    ensures
        match spec_lex(buf, pos, line).token {
            Some(t) => type_level(t.ttype) < 4 ==> operator_type(t.value) == Some(t.ttype),
            None => true,
        },
{
    reveal_strlit("and");
    reveal_strlit("or");
    reveal_strlit("==");
    reveal_strlit("<");
    reveal_strlit("<=");
    reveal_strlit(">");
    reveal_strlit(">=");
    reveal_strlit("+");
    reveal_strlit("-");
    reveal_strlit("*");
    reveal_strlit("/");
    reveal_strlit("%");
    assert("+"@ =~= seq!['+']);
    assert("-"@ =~= seq!['-']);
    assert("*"@ =~= seq!['*']);
    assert("/"@ =~= seq!['/']);
    assert("%"@ =~= seq!['%']);
    assert("<"@ =~= seq!['<']);
    assert(">"@ =~= seq!['>']);
    assert("=="@ =~= seq!['=', '=']);
    assert("<="@ =~= seq!['<', '=']);
    assert(">="@ =~= seq!['>', '=']);
    let (p, l) = skip_blank(buf, pos, line);
    if 0 <= p < buf.len() {
        let c = buf[p];
        let t = scan_token(buf, p, l).token;
        if symbol_type(c) is Some {
            assert(buf.subrange(p, p + 1) =~= seq![c]);
            assert(t->0.value == seq![c]);
            assert(seq![c][0] == c);
        } else if c == '"' {
        } else if c == '=' || c == '<' || c == '>' {
            if p + 1 < buf.len() && buf[p + 1] == '=' {
                assert(buf.subrange(p, p + 2) =~= seq![c, '=']);
                assert(t->0.value == seq![c, '=']);
                assert(seq![c, '='][0] == c);
            } else {
                assert(buf.subrange(p, p + 1) =~= seq![c]);
                assert(t->0.value == seq![c]);
                assert(seq![c][0] == c);
            }
        } else if is_digit(c) {
        } else if is_word_start(c) {
            assert(t->0.ttype == word_type(t->0.value));
        }
    }
}

/// The operator tokens of a token stream carry the texts of their operators.
pub proof fn lemma_stream_spells_operators(buf: Seq<char>, pos: int, line: int)
    requires
        0 <= pos,
    ensures
        operators_spelled(token_stream(buf, pos, line)),
    decreases buf.len() - pos,
{
    let scan = spec_lex(buf, pos, line);
    lemma_scan_spells_operator(buf, pos, line);
    lemma_lex_advances(buf, pos, line);
    match scan.token {
        None => {},
        Some(t) => {
            if t.ttype != TokenType::Eof {
                lemma_stream_spells_operators(buf, scan.pos, scan.line);
                let rest = token_stream(buf, scan.pos, scan.line);
                let all = token_stream(buf, pos, line);
                assert(all == seq![t] + rest);
                assert forall|i: int| 0 <= i < all.len() && type_level((#[trigger] all[i]).ttype)
                    < 4 implies operator_type(all[i].value) == Some(all[i].ttype) by {
                    if i > 0 {
                        assert(all[i] == rest[i - 1]);
                    }
                }
            }
        },
    }
}

} // verus!
