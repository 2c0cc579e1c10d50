//! Round trip: parsing the canonical tokens of a parsed tree gives the tree
//! again, for statements and for whole programs; and so does scanning and
//! parsing the text of those tokens.

use crate::grammar::{
    accept, listed, spec_block, spec_block_rest, spec_call, spec_condition_block, spec_elifs,
    spec_factor, spec_func_def, spec_if_else, spec_operand, spec_params, spec_params_rest, spec_program,
    spec_statement, starts_expression, token_at, Ast, ParseFailure, Program,
};
use crate::lexer::{token_stream, TokenType, TokenView};
use crate::reading::{
    lemma_expr_returns, lemma_first_token, lemma_operand_returns, lemma_reads_parts,
    lemma_reads_start, lemma_reads_three, lemma_reads_token, lemma_terminated_returns, reads,
};
use crate::shape::{
    are_clauses, are_parameters, are_statements, is_condition, is_statement, leading,
    lemma_program_shape, lemma_statement_shape, lemma_stream_spells_operators, operators_spelled,
};
use crate::source::{are_lexemes, lemma_stream_is_lexemes, lemma_text_lexes_back, source_text};
use crate::spelled::{
    are_spelled, lemma_lexeme_spells_operator, lemma_program_plain, lemma_program_spelled,
};
use crate::serializer::{
    bare_tokens, block_tokens, condition_tokens, elifs_tokens, else_tokens, operator_type,
    parameter_name, params_tokens, program_tokens, statement_tokens, statements_tokens, token,
    type_level,
};
use vstd::prelude::*;

verus! {

/// The token at `pos` can stand behind a statement: there is one, and it is
/// neither `elif` nor `else`.
pub open spec fn ends_statement(toks: Seq<TokenView>, pos: int) -> bool {
    match token_at(toks, pos) {
        Some(t) => t.ttype != TokenType::Elif && t.ttype != TokenType::Else,
        None => false,
    }
}

/// Whether a statement can start with a token of type `ttype`.
pub open spec fn starts_statement(ttype: TokenType) -> bool {
    ttype == TokenType::Import || ttype == TokenType::Let || ttype == TokenType::Func || ttype
        == TokenType::If || ttype == TokenType::Loop || ttype == TokenType::Break || ttype
        == TokenType::Return || starts_expression(ttype)
}

/// A statement has tokens, and the first of them can start a statement.
pub proof fn lemma_statement_start(node: Ast)
    requires
        is_statement(node),
    ensures
        statement_tokens(node).len() > 0,
        starts_statement(statement_tokens(node)[0].ttype),
{
    match node {
        Ast::VarDecNode { name, value } => {},
        Ast::AssignNode { name, value } => {},
        Ast::ReturnNode(value) => {},
        Ast::FuncDef { name, arguments, block } => {},
        Ast::LoopNode { condition, block } => {},
        Ast::IfElseNode { condition, then_branch, elif_branch, else_branch } => {},
        Ast::FuncCall { name, arguments } => {},
        Ast::BinOpNode { op, left, right } => {
            lemma_first_token(node, 0);
        },
        _ => {},
    }
}

/// An import, a `break` and a bare `return` come back from their canonical
/// tokens.
pub proof fn lemma_keyword_statement_returns(toks: Seq<TokenView>, pos: int, node: Ast)
    requires
        node is ImportNode || node is BreakNode || node == Ast::ReturnNode(None),
        reads(toks, pos, statement_tokens(node)),
    ensures
        spec_statement(toks, pos) == accept(node, pos + statement_tokens(node).len()),
{
    let tokens = statement_tokens(node);
    assert(tokens.len() == 2);
    lemma_reads_token(toks, pos, tokens, 0);
    lemma_reads_token(toks, pos, tokens, 1);
}

/// A `return` with a value comes back from its canonical tokens.
pub proof fn lemma_return_returns(toks: Seq<TokenView>, pos: int, node: Ast)
    requires
        is_statement(node),
        node matches Ast::ReturnNode(Some(_)),
        reads(toks, pos, statement_tokens(node)),
    ensures
        spec_statement(toks, pos) == accept(node, pos + statement_tokens(node).len()),
{
    let value = *node->ReturnNode_0->0;
    let start = seq![token(TokenType::Return, "return"@)];
    let semicolon = seq![token(TokenType::Scln, ";"@)];
    lemma_first_token(value, 0);
    lemma_reads_three(toks, pos, start, bare_tokens(value), semicolon);
    lemma_reads_token(toks, pos, start, 0);
    lemma_reads_token(toks, pos + 1 + bare_tokens(value).len(), semicolon, 0);
    lemma_terminated_returns(toks, pos + 1, value);
}

/// A variable declaration comes back from its canonical tokens.
pub proof fn lemma_var_def_returns(toks: Seq<TokenView>, pos: int, node: Ast)
    requires
        is_statement(node),
        node is VarDecNode,
        reads(toks, pos, statement_tokens(node)),
    ensures
        spec_statement(toks, pos) == accept(node, pos + statement_tokens(node).len()),
{
    let value = *node->VarDecNode_value;
    let start = seq![
        token(TokenType::Let, "let"@),
        token(TokenType::Iden, node->VarDecNode_name),
        token(TokenType::Equ, "="@),
    ];
    let semicolon = seq![token(TokenType::Scln, ";"@)];
    lemma_first_token(value, 0);
    lemma_reads_three(toks, pos, start, bare_tokens(value), semicolon);
    lemma_reads_token(toks, pos, start, 0);
    lemma_reads_token(toks, pos, start, 1);
    lemma_reads_token(toks, pos, start, 2);
    lemma_reads_token(toks, pos + 3 + bare_tokens(value).len(), semicolon, 0);
    lemma_terminated_returns(toks, pos + 3, value);
}

/// An assignment comes back from its canonical tokens.
pub proof fn lemma_assign_returns(toks: Seq<TokenView>, pos: int, node: Ast)
    requires
        is_statement(node),
        node is AssignNode,
        reads(toks, pos, statement_tokens(node)),
    ensures
        spec_statement(toks, pos) == accept(node, pos + statement_tokens(node).len()),
{
    let value = *node->AssignNode_value;
    let start = seq![
        token(TokenType::Iden, node->AssignNode_name),
        token(TokenType::Equ, "="@),
    ];
    let semicolon = seq![token(TokenType::Scln, ";"@)];
    lemma_first_token(value, 0);
    lemma_reads_three(toks, pos, start, bare_tokens(value), semicolon);
    lemma_reads_token(toks, pos, start, 0);
    lemma_reads_token(toks, pos, start, 1);
    lemma_reads_token(toks, pos + 2 + bare_tokens(value).len(), semicolon, 0);
    lemma_terminated_returns(toks, pos + 2, value);
}

/// A call that stands as a statement comes back from its canonical tokens.
pub proof fn lemma_call_statement_returns(toks: Seq<TokenView>, pos: int, node: Ast)
    requires
        is_statement(node),
        node is FuncCall,
        reads(toks, pos, statement_tokens(node)),
    ensures
        spec_statement(toks, pos) == accept(node, pos + statement_tokens(node).len()),
{
    let call = bare_tokens(node);
    let semicolon = seq![token(TokenType::Scln, ";"@)];
    lemma_reads_parts(toks, pos, call, semicolon);
    lemma_reads_token(toks, pos + call.len(), semicolon, 0);
    lemma_reads_token(toks, pos, call, 0);
    lemma_reads_token(toks, pos, call, 1);
    lemma_operand_returns(toks, pos, node, 4);
    assert(spec_operand(toks, pos, 4) == spec_factor(toks, pos));
    assert(spec_call(toks, pos) == accept(node, pos + call.len()));
}

/// An expression that stands as a statement comes back from its canonical
/// tokens.
pub proof fn lemma_expression_statement_returns(toks: Seq<TokenView>, pos: int, node: Ast)
    requires
        is_statement(node),
        node is Number || node is StrLiteral || node is BoolNode || node is BinOpNode,
        reads(toks, pos, statement_tokens(node)),
    ensures
        spec_statement(toks, pos) == accept(node, pos + statement_tokens(node).len()),
{
    let tokens = bare_tokens(node);
    let semicolon = seq![token(TokenType::Scln, ";"@)];
    assert(is_condition(node) && leading(node) != TokenType::Iden);
    lemma_first_token(node, 0);
    lemma_reads_parts(toks, pos, tokens, semicolon);
    lemma_reads_token(toks, pos + tokens.len(), semicolon, 0);
    lemma_reads_token(toks, pos, tokens, 0);
    lemma_terminated_returns(toks, pos, node);
}

/// The parameters from index `from` on come back from their canonical
/// tokens.
pub proof fn lemma_params_rest_return(toks: Seq<TokenView>, pos: int, params: Seq<Ast>, from: nat)
    requires
        are_parameters(params),
        from < params.len(),
        reads(toks, pos, params_tokens(params, from)),
    ensures
        spec_params_rest(toks, pos, params.take(from as int)) == accept(
            Some(params),
            pos + params_tokens(params, from).len(),
        ),
    decreases params.len() - from,
{
    let rest = params_tokens(params, from + 1);
    let param = params[from as int];
    assert(param is Identifier);
    assert(params.take(from as int).push(Ast::Identifier(parameter_name(param))) =~= params.take(
        from as int + 1,
    ));
    if from + 1 == params.len() {
        let name = seq![token(TokenType::Iden, parameter_name(param))];
        lemma_reads_parts(toks, pos, name, rest);
        lemma_reads_token(toks, pos, name, 0);
        lemma_reads_token(toks, pos + 1, rest, 0);
        assert(params.take(from as int + 1) =~= params);
    } else {
        let start = seq![
            token(TokenType::Iden, parameter_name(param)),
            token(TokenType::Com, ","@),
        ];
        lemma_reads_parts(toks, pos, start, rest);
        lemma_reads_token(toks, pos, start, 0);
        lemma_reads_token(toks, pos, start, 1);
        lemma_params_rest_return(toks, pos + 2, params, from + 1);
    }
}

/// A parameter list comes back from its canonical tokens; `pos` is where its
/// opening parenthesis stands.
pub proof fn lemma_params_return(toks: Seq<TokenView>, pos: int, params: Seq<Ast>)
    requires
        are_parameters(params),
        token_at(toks, pos) == Some(token(TokenType::Opt, "("@)),
        reads(toks, pos + 1, params_tokens(params, 0)),
    ensures
        spec_params(toks, pos).pos == pos + 1 + params_tokens(params, 0).len(),
        spec_params(toks, pos).result matches Ok(found) && listed(found) == params,
{
    let tokens = params_tokens(params, 0);
    lemma_reads_token(toks, pos + 1, tokens, 0);
    if params.len() == 0 {
        assert(listed(None::<Seq<Ast>>) =~= params);
    } else {
        assert(params.take(0) =~= Seq::empty());
        lemma_params_rest_return(toks, pos + 1, params, 0);
    }
}

/// A statement comes back from its canonical tokens.
pub proof fn lemma_statement_returns(toks: Seq<TokenView>, pos: int, node: Ast)
    requires
        is_statement(node),
        reads(toks, pos, statement_tokens(node)),
        ends_statement(toks, pos + statement_tokens(node).len()),
    ensures
        spec_statement(toks, pos) == accept(node, pos + statement_tokens(node).len()),
    decreases node, 2nat, 0nat,
{
    match node {
        Ast::ImportNode(_) => lemma_keyword_statement_returns(toks, pos, node),
        Ast::BreakNode => lemma_keyword_statement_returns(toks, pos, node),
        Ast::ReturnNode(None) => lemma_keyword_statement_returns(toks, pos, node),
        Ast::ReturnNode(Some(_)) => lemma_return_returns(toks, pos, node),
        Ast::VarDecNode { name, value } => lemma_var_def_returns(toks, pos, node),
        Ast::AssignNode { name, value } => lemma_assign_returns(toks, pos, node),
        Ast::FuncCall { name, arguments } => lemma_call_statement_returns(toks, pos, node),
        Ast::FuncDef { name, arguments, block } => lemma_func_def_returns(toks, pos, node),
        Ast::LoopNode { condition, block } => lemma_loop_returns(toks, pos, node),
        Ast::IfElseNode { condition, then_branch, elif_branch, else_branch } => {
            lemma_if_else_returns(toks, pos, node)
        },
        _ => lemma_expression_statement_returns(toks, pos, node),
    }
}

/// A function definition comes back from its canonical tokens behind its
/// keyword.
proof fn lemma_func_tail_returns(toks: Seq<TokenView>, pos: int, node: Ast, end: int)
    requires
        node is FuncDef,
        token_at(toks, pos) == Some(token(TokenType::Iden, node->FuncDef_name)),
        spec_params(toks, pos + 1).pos > pos,
        spec_params(toks, pos + 1).result matches Ok(found) && listed(found)
            == node->FuncDef_arguments,
        spec_block(toks, spec_params(toks, pos + 1).pos) == accept(node->FuncDef_block, end),
    ensures
        spec_func_def(toks, pos) == accept(node, end),
{
}

/// A function definition comes back from its canonical tokens.
pub proof fn lemma_func_def_returns(toks: Seq<TokenView>, pos: int, node: Ast)
    requires
        is_statement(node),
        node is FuncDef,
        reads(toks, pos, statement_tokens(node)),
    ensures
        spec_statement(toks, pos) == accept(node, pos + statement_tokens(node).len()),
    decreases node, 1nat, 0nat,
{
    let arguments = node->FuncDef_arguments;
    let block = node->FuncDef_block;
    let start = seq![
        token(TokenType::Func, "fn"@),
        token(TokenType::Iden, node->FuncDef_name),
        token(TokenType::Opt, "("@),
    ];
    let params = params_tokens(arguments, 0);
    let body = block_tokens(block);
    lemma_reads_three(toks, pos, start, params, body);
    lemma_reads_token(toks, pos, start, 0);
    lemma_reads_token(toks, pos, start, 1);
    lemma_reads_token(toks, pos, start, 2);
    lemma_params_return(toks, pos + 2, arguments);
    lemma_block_returns(toks, pos + 3 + params.len(), block);
    lemma_func_tail_returns(toks, pos + 1, node, pos + 3 + params.len() + body.len());
}

/// A loop comes back from its canonical tokens.
pub proof fn lemma_loop_returns(toks: Seq<TokenView>, pos: int, node: Ast)
    requires
        is_statement(node),
        node is LoopNode,
        reads(toks, pos, statement_tokens(node)),
    ensures
        spec_statement(toks, pos) == accept(node, pos + statement_tokens(node).len()),
    decreases node, 1nat, 0nat,
{
    let condition = *node->LoopNode_condition;
    let block = node->LoopNode_block;
    let start = seq![token(TokenType::Loop, "loop"@)];
    lemma_reads_three(toks, pos, start, condition_tokens(condition), block_tokens(block));
    lemma_reads_token(toks, pos, start, 0);
    lemma_condition_block_returns(toks, pos + 1, condition, block);
}

/// A conditional comes back from its canonical tokens.
pub proof fn lemma_if_else_returns(toks: Seq<TokenView>, pos: int, node: Ast)
    requires
        is_statement(node),
        node is IfElseNode,
        reads(toks, pos, statement_tokens(node)),
        ends_statement(toks, pos + statement_tokens(node).len()),
    ensures
        spec_statement(toks, pos) == accept(node, pos + statement_tokens(node).len()),
    decreases node, 1nat, 1nat,
{
    let start = seq![token(TokenType::If, "if"@)];
    let first = condition_tokens(*node->IfElseNode_condition);
    let then = block_tokens(node->then_branch);
    let elifs = elifs_tokens(node->elif_branch, 0);
    let last = else_tokens(node->else_branch);
    lemma_reads_parts(toks, pos, start + first + then + elifs, last);
    lemma_reads_parts(toks, pos, start + first + then, elifs);
    lemma_reads_three(toks, pos, start, first, then);
    lemma_reads_token(toks, pos, start, 0);
    lemma_if_tail_returns(toks, pos + 1, node);
}

/// A conditional comes back from its canonical tokens behind its keyword.
pub proof fn lemma_if_tail_returns(toks: Seq<TokenView>, pos: int, node: Ast)
    requires
        is_statement(node),
        node is IfElseNode,
        reads(toks, pos, condition_tokens(*node->IfElseNode_condition)),
        reads(
            toks,
            pos + condition_tokens(*node->IfElseNode_condition).len(),
            block_tokens(node->then_branch),
        ),
        reads(
            toks,
            pos + condition_tokens(*node->IfElseNode_condition).len() + block_tokens(
                node->then_branch,
            ).len(),
            elifs_tokens(node->elif_branch, 0),
        ),
        reads(
            toks,
            pos + condition_tokens(*node->IfElseNode_condition).len() + block_tokens(
                node->then_branch,
            ).len() + elifs_tokens(node->elif_branch, 0).len(),
            else_tokens(node->else_branch),
        ),
        ends_statement(
            toks,
            pos + condition_tokens(*node->IfElseNode_condition).len() + block_tokens(
                node->then_branch,
            ).len() + elifs_tokens(node->elif_branch, 0).len() + else_tokens(
                node->else_branch,
            ).len(),
        ),
    ensures
        spec_if_else(toks, pos) == accept(
            node,
            pos + condition_tokens(*node->IfElseNode_condition).len() + block_tokens(
                node->then_branch,
            ).len() + elifs_tokens(node->elif_branch, 0).len() + else_tokens(
                node->else_branch,
            ).len(),
        ),
    decreases node, 1nat, 0nat,
{
    let condition = *node->IfElseNode_condition;
    let then_branch = node->then_branch;
    let clauses = node->elif_branch;
    let behind_then = pos + condition_tokens(condition).len() + block_tokens(then_branch).len();
    lemma_condition_block_returns(toks, pos, condition, then_branch);
    assert(clauses.take(0) =~= Seq::empty());
    lemma_elifs_return(toks, behind_then, condition, then_branch, clauses, 0);
    lemma_else_returns(toks, behind_then + elifs_tokens(clauses, 0).len(), node);
}

/// One `elif` clause that parses takes the rest of a conditional one clause
/// further.
proof fn lemma_elif_step(
    toks: Seq<TokenView>,
    pos: int,
    condition: Ast,
    then_branch: Seq<Ast>,
    elifs: Seq<(Ast, Seq<Ast>)>,
    clause: (Ast, Seq<Ast>),
    end: int,
)
    requires
        token_at(toks, pos) == Some(token(TokenType::Elif, "elif"@)),
        spec_condition_block(toks, pos + 1) == accept(clause, end),
        end > pos,
    ensures
        spec_elifs(toks, pos, condition, then_branch, elifs) == spec_elifs(
            toks,
            end,
            condition,
            then_branch,
            elifs.push(clause),
        ),
{
}

/// The `elif` clauses from index `from` on come back from their canonical
/// tokens: parsing the rest of a conditional before them, with the clauses
/// before `from`, gives what parsing gives behind them with all the clauses.
pub proof fn lemma_elifs_return(
    toks: Seq<TokenView>,
    pos: int,
    condition: Ast,
    then_branch: Seq<Ast>,
    clauses: Seq<(Ast, Seq<Ast>)>,
    from: nat,
)
    requires
        are_clauses(clauses),
        from <= clauses.len(),
        reads(toks, pos, elifs_tokens(clauses, from)),
    ensures
        spec_elifs(toks, pos, condition, then_branch, clauses.take(from as int)) == spec_elifs(
            toks,
            pos + elifs_tokens(clauses, from).len(),
            condition,
            then_branch,
            clauses,
        ),
    decreases clauses, 0nat, clauses.len() - from,
{
    if from >= clauses.len() {
        assert(clauses.take(from as int) =~= clauses);
    } else {
        let clause = clauses[from as int];
        let start = seq![token(TokenType::Elif, "elif"@)];
        let first = condition_tokens(clause.0);
        let body = block_tokens(clause.1);
        let rest = elifs_tokens(clauses, from + 1);
        let end = pos + 1 + first.len() + body.len();
        lemma_reads_parts(toks, pos, start + first + body, rest);
        lemma_reads_three(toks, pos, start, first, body);
        lemma_reads_token(toks, pos, start, 0);
        lemma_condition_block_returns(toks, pos + 1, clause.0, clause.1);
        lemma_elif_step(
            toks,
            pos,
            condition,
            then_branch,
            clauses.take(from as int),
            clause,
            end,
        );
        assert(clauses.take(from as int).push(clause) =~= clauses.take(from as int + 1));
        lemma_elifs_return(toks, end, condition, then_branch, clauses, from + 1);
    }
}

/// The `else` block of a conditional, or the lack of one, comes back from
/// its canonical tokens.
pub proof fn lemma_else_returns(toks: Seq<TokenView>, pos: int, node: Ast)
    requires
        node is IfElseNode,
        node->else_branch matches Some(block) ==> are_statements(block),
        reads(toks, pos, else_tokens(node->else_branch)),
        ends_statement(toks, pos + else_tokens(node->else_branch).len()),
    ensures
        spec_elifs(
            toks,
            pos,
            *node->IfElseNode_condition,
            node->then_branch,
            node->elif_branch,
        ) == accept(node, pos + else_tokens(node->else_branch).len()),
    decreases node, 0nat, 0nat,
{
    match node->else_branch {
        Some(block) => {
            let start = seq![token(TokenType::Else, "else"@)];
            lemma_reads_parts(toks, pos, start, block_tokens(block));
            lemma_reads_token(toks, pos, start, 0);
            lemma_block_returns(toks, pos + 1, block);
        },
        None => {},
    }
}

/// A condition with its block comes back from its canonical tokens.
pub proof fn lemma_condition_block_returns(
    toks: Seq<TokenView>,
    pos: int,
    condition: Ast,
    block: Seq<Ast>,
)
    requires
        is_condition(condition),
        are_statements(block),
        reads(toks, pos, condition_tokens(condition)),
        reads(toks, pos + condition_tokens(condition).len(), block_tokens(block)),
    ensures
        spec_condition_block(toks, pos) == accept(
            (condition, block),
            pos + condition_tokens(condition).len() + block_tokens(block).len(),
        ),
    decreases block, 2nat, 0nat,
{
    let open = seq![token(TokenType::Opt, "("@)];
    let inside = bare_tokens(condition);
    let close = seq![token(TokenType::Cpt, ")"@)];
    lemma_first_token(condition, 0);
    lemma_reads_three(toks, pos, open, inside, close);
    lemma_reads_token(toks, pos, open, 0);
    lemma_reads_token(toks, pos + 1 + inside.len(), close, 0);
    lemma_expr_returns(toks, pos + 1, condition);
    lemma_block_returns(toks, pos + 2 + inside.len(), block);
}

/// A block comes back from its canonical tokens.
pub proof fn lemma_block_returns(toks: Seq<TokenView>, pos: int, statements: Seq<Ast>)
    requires
        are_statements(statements),
        reads(toks, pos, block_tokens(statements)),
    ensures
        spec_block(toks, pos) == accept(statements, pos + block_tokens(statements).len()),
    decreases statements, 1nat, 0nat,
{
    let open = seq![token(TokenType::Ocl, "{"@)];
    let inside = statements_tokens(statements, 0);
    lemma_reads_parts(toks, pos, open, inside);
    lemma_reads_token(toks, pos, open, 0);
    lemma_statements_start(statements, 0);
    lemma_reads_token(toks, pos + 1, inside, 0);
    assert(statements.take(0) =~= Seq::empty());
    lemma_statements_return(toks, pos + 1, statements, 0, token_at(toks, pos + 1)->0.line_num);
}

/// The rest of a block has tokens, and the first of them can stand behind a
/// statement and is the first of the next statement, if there is one.
pub proof fn lemma_statements_start(statements: Seq<Ast>, from: nat)
    requires
        are_statements(statements),
    ensures
        statements_tokens(statements, from).len() > 0,
        statements_tokens(statements, from)[0].ttype != TokenType::Elif,
        statements_tokens(statements, from)[0].ttype != TokenType::Else,
        from < statements.len() ==> starts_statement(statements_tokens(statements, from)[0].ttype),
{
    if from < statements.len() {
        lemma_statement_start(statements[from as int]);
    }
}

/// The statements of a block from index `from` on come back from their
/// canonical tokens.
pub proof fn lemma_statements_return(
    toks: Seq<TokenView>,
    pos: int,
    statements: Seq<Ast>,
    from: nat,
    line: u32,
)
    requires
        are_statements(statements),
        from <= statements.len(),
        reads(toks, pos, statements_tokens(statements, from)),
    ensures
        spec_block_rest(toks, pos, line, statements.take(from as int)) == accept(
            statements,
            pos + statements_tokens(statements, from).len(),
        ),
    decreases statements, 0nat, statements.len() - from,
{
    let tokens = statements_tokens(statements, from);
    lemma_statements_start(statements, from);
    lemma_reads_token(toks, pos, tokens, 0);
    if from >= statements.len() {
        assert(statements.take(from as int) =~= statements);
    } else {
        let node = statements[from as int];
        let first = statement_tokens(node);
        let rest = statements_tokens(statements, from + 1);
        lemma_statement_start(node);
        lemma_statements_start(statements, from + 1);
        lemma_reads_parts(toks, pos, first, rest);
        lemma_reads_token(toks, pos + first.len(), rest, 0);
        lemma_statement_returns(toks, pos, node);
        assert(statements.take(from as int).push(node) =~= statements.take(from as int + 1));
        lemma_statements_return(toks, pos + first.len(), statements, from + 1, line);
    }
}

/// Round trip of a statement: where a statement parses, from tokens whose
/// operators carry their own text, the canonical tokens of its tree, with the
/// end-of-file token behind them, parse to the same tree, and parsing stops
/// behind them.
pub proof fn lemma_statement_round_trip(toks: Seq<TokenView>, pos: int, node: Ast)
    requires
        operators_spelled(toks),
        spec_statement(toks, pos).result == Ok::<Ast, ParseFailure>(node),
    ensures
        spec_statement(statement_tokens(node) + seq![token(TokenType::Eof, Seq::empty())], 0)
            == accept(node, statement_tokens(node).len() as int),
{
    let tokens = statement_tokens(node);
    let end = seq![token(TokenType::Eof, Seq::empty())];
    let again = tokens + end;
    lemma_statement_shape(toks, pos);
    if node == Ast::Eof {
        assert(tokens.len() == 0);
        assert(again[0] == end[0]);
    } else {
        lemma_reads_start(tokens, end);
        lemma_reads_token(again, tokens.len() as int, end, 0);
        lemma_statement_returns(again, 0, node);
    }
}

/// The rest of a program has tokens, and the first of them can stand behind
/// a statement.
pub proof fn lemma_program_start(statements: Seq<Ast>, from: nat)
    requires
        are_statements(statements),
    ensures
        program_tokens(statements, from).len() > 0,
        program_tokens(statements, from)[0].ttype != TokenType::Elif,
        program_tokens(statements, from)[0].ttype != TokenType::Else,
        from < statements.len() ==> starts_statement(program_tokens(statements, from)[0].ttype),
        from >= statements.len() ==> program_tokens(statements, from)[0].ttype == TokenType::Eof,
{
    if from < statements.len() {
        lemma_statement_start(statements[from as int]);
    }
}

/// The statements of a program from index `from` on come back from their
/// canonical tokens, and parsing stops at the end-of-file token.
pub proof fn lemma_program_returns(
    toks: Seq<TokenView>,
    pos: int,
    statements: Seq<Ast>,
    from: nat,
)
    requires
        are_statements(statements),
        from <= statements.len(),
        reads(toks, pos, program_tokens(statements, from)),
    ensures
        spec_program(toks, pos, statements.take(from as int)) == (Program {
            statements,
            failure: None,
            pos: pos + program_tokens(statements, from).len() - 1,
        }),
    decreases statements.len() - from,
{
    let tokens = program_tokens(statements, from);
    lemma_program_start(statements, from);
    lemma_reads_token(toks, pos, tokens, 0);
    if from >= statements.len() {
        assert(statements.take(from as int) =~= statements);
    } else {
        let node = statements[from as int];
        let first = statement_tokens(node);
        let rest = program_tokens(statements, from + 1);
        lemma_statement_start(node);
        lemma_program_start(statements, from + 1);
        lemma_reads_parts(toks, pos, first, rest);
        lemma_reads_token(toks, pos + first.len(), rest, 0);
        lemma_statement_returns(toks, pos, node);
        assert(statements.take(from as int).push(node) =~= statements.take(from as int + 1));
        lemma_program_returns(toks, pos + first.len(), statements, from + 1);
    }
}

/// Round trip of a program: where a program parses without failure, from
/// tokens whose operators carry their own text, the canonical tokens of its
/// statements parse to the same statements, without failure.
pub proof fn lemma_program_round_trip(toks: Seq<TokenView>)
    requires
        operators_spelled(toks),
        spec_program(toks, 0, Seq::empty()).failure is None,
    ensures
        ({
            let statements = spec_program(toks, 0, Seq::empty()).statements;
            let again = spec_program(program_tokens(statements, 0), 0, Seq::empty());
            again.statements == statements && again.failure is None
        }),
{
    let statements = spec_program(toks, 0, Seq::empty()).statements;
    let tokens = program_tokens(statements, 0);
    lemma_program_shape(toks, 0, Seq::empty());
    lemma_reads_start(tokens, Seq::empty());
    assert(tokens + Seq::<TokenView>::empty() =~= tokens);
    assert(statements.take(0) =~= Seq::empty());
    lemma_program_returns(tokens, 0, statements, 0);
}


/// Round trip of a source text: where the tokens of a buffer parse without
/// failure, the canonical tokens of the statements parse to the same
/// statements, without failure.
pub proof fn lemma_source_round_trip(buf: Seq<char>)
    requires
        spec_program(token_stream(buf, 0, 1), 0, Seq::empty()).failure is None,
    ensures
        ({
            let statements = spec_program(token_stream(buf, 0, 1), 0, Seq::empty()).statements;
            let again = spec_program(program_tokens(statements, 0), 0, Seq::empty());
            again.statements == statements && again.failure is None
        }),
{
    lemma_stream_spells_operators(buf, 0, 1);
    lemma_program_round_trip(token_stream(buf, 0, 1));
}


/// Tokens whose texts fit their types have operators that carry their own
/// text.
pub proof fn lemma_lexemes_spell_operators(toks: Seq<TokenView>)
    requires
        are_lexemes(toks),
    ensures
        operators_spelled(toks),
{
    assert forall|i: int|
        0 <= i < toks.len() && type_level((#[trigger] toks[i]).ttype) < 4 implies operator_type(
        toks[i].value,
    ) == Some(toks[i].ttype) by {
        lemma_lexeme_spells_operator(toks[i]);
    }
}

/// Round trip of a program through source text: where a program parses
/// without failure, from tokens whose texts fit their types, scanning the
/// text of the canonical tokens of its statements gives those tokens, and
/// parsing them gives the same statements, without failure.
pub proof fn lemma_program_text_round_trip(toks: Seq<TokenView>)
    requires
        are_lexemes(toks),
        spec_program(toks, 0, Seq::empty()).failure is None,
    ensures
        ({
            let statements = spec_program(toks, 0, Seq::empty()).statements;
            let text = source_text(program_tokens(statements, 0), 0);
            let again = spec_program(token_stream(text, 0, 1), 0, Seq::empty());
            &&& token_stream(text, 0, 1) == program_tokens(statements, 0)
            &&& again.statements == statements
            &&& again.failure is None
        }),
{
    let statements = spec_program(toks, 0, Seq::empty()).statements;
    assert(are_spelled(Seq::<Ast>::empty()));
    lemma_program_spelled(toks, 0, Seq::empty());
    lemma_program_plain(statements, 0);
    lemma_text_lexes_back(program_tokens(statements, 0));
    lemma_lexemes_spell_operators(toks);
    lemma_program_round_trip(toks);
}

/// Round trip of a source text: where the tokens of a buffer parse without
/// failure, the text of the canonical tokens of the statements scans and
/// parses to the same statements, without failure.
pub proof fn lemma_text_round_trip(buf: Seq<char>)
    requires
        spec_program(token_stream(buf, 0, 1), 0, Seq::empty()).failure is None,
    ensures
        ({
            let statements = spec_program(token_stream(buf, 0, 1), 0, Seq::empty()).statements;
            let text = source_text(program_tokens(statements, 0), 0);
            let again = spec_program(token_stream(text, 0, 1), 0, Seq::empty());
            again.statements == statements && again.failure is None
        }),
{
    lemma_stream_is_lexemes(buf, 0, 1);
    lemma_program_text_round_trip(token_stream(buf, 0, 1));
}

} // verus!
