//! The serializer: the canonical tokens of a syntax tree, and their text. An
//! operand gets parentheses only where the grammar needs them, and every
//! token stands on line 1. Parsing what the serializer writes for a parsed
//! tree gives the tree again: see [`crate::roundtrip`].

use crate::grammar::Ast;
use crate::lexer::{token_views, Token, TokenType, TokenView};
use crate::parser::{ast_views, clause_views, ASTNode};
use crate::source::{source_text, to_source};
use vstd::prelude::*;
use vstd::string::StringExecFns;

verus! {

/// The token type of a binary operator, by its text.
pub open spec fn operator_type(op: Seq<char>) -> Option<TokenType> {
    if op == "and"@ {
        Some(TokenType::And)
    } else if op == "or"@ {
        Some(TokenType::Or)
    } else if op == "=="@ {
        Some(TokenType::Eqv)
    } else if op == "<"@ {
        Some(TokenType::Les)
    } else if op == "<="@ {
        Some(TokenType::Leq)
    } else if op == ">"@ {
        Some(TokenType::Gre)
    } else if op == ">="@ {
        Some(TokenType::Geq)
    } else if op == "+"@ {
        Some(TokenType::Add)
    } else if op == "-"@ {
        Some(TokenType::Sub)
    } else if op == "*"@ {
        Some(TokenType::Mul)
    } else if op == "/"@ {
        Some(TokenType::Div)
    } else if op == "%"@ {
        Some(TokenType::Mod)
    } else {
        None
    }
}

/// The level of the binary operators of type `ttype`; 4, the level of
/// factors, for any other type.
pub open spec fn type_level(ttype: TokenType) -> nat {
    match ttype {
        TokenType::And | TokenType::Or => 0,
        TokenType::Eqv | TokenType::Les | TokenType::Leq | TokenType::Gre | TokenType::Geq => 1,
        TokenType::Add | TokenType::Sub => 2,
        TokenType::Mul | TokenType::Div | TokenType::Mod => 3,
        _ => 4,
    }
}

/// The token type of the operator of a binary node; `Eof` where the text is
/// no operator.
pub open spec fn node_operator(node: Ast) -> TokenType {
    match node {
        Ast::BinOpNode { op, left, right } => match operator_type(op) {
            Some(ttype) => ttype,
            None => TokenType::Eof,
        },
        _ => TokenType::Eof,
    }
}

/// The level at which a tree binds: that of its operator for a binary node,
/// 4 for any other tree.
pub open spec fn level_of(node: Ast) -> nat {
    type_level(node_operator(node))
}

/// A token on line 1.
pub open spec fn token(ttype: TokenType, value: Seq<char>) -> TokenView {
    TokenView { ttype, value, line_num: 1 }
}

/// The tokens of an expression that stands as an operand of `level`: in
/// parentheses where the tree binds looser than `level`.
pub open spec fn operand_tokens(node: Ast, level: nat) -> Seq<TokenView>
    decreases node, 1nat,
{
    if level_of(node) >= level {
        bare_tokens(node)
    } else {
        seq![token(TokenType::Opt, "("@)] + bare_tokens(node) + seq![token(TokenType::Cpt, ")"@)]
    }
}

/// The tokens of an expression without parentheses around it. A tree that is
/// no expression has none.
pub open spec fn bare_tokens(node: Ast) -> Seq<TokenView>
    decreases node, 0nat,
{
    match node {
        Ast::Number(lexeme) => seq![token(TokenType::Num, lexeme)],
        Ast::StrLiteral(text) => seq![token(TokenType::Str, text)],
        Ast::BoolNode(b) => if b {
            seq![token(TokenType::True, "true"@)]
        } else {
            seq![token(TokenType::False, "false"@)]
        },
        Ast::Identifier(name) => seq![token(TokenType::Iden, name)],
        Ast::FuncCall { name, arguments } => seq![
            token(TokenType::Iden, name),
            token(TokenType::Opt, "("@),
        ] + args_tokens(arguments, 0),
        Ast::BinOpNode { op, left, right } => operand_tokens(*left, level_of(node)) + seq![
            token(node_operator(node), op),
        ] + operand_tokens(*right, level_of(node) + 1),
        _ => Seq::empty(),
    }
}

/// The tokens of the arguments from index `from` on, with commas between them
/// and the closing parenthesis behind them.
pub open spec fn args_tokens(args: Seq<Ast>, from: nat) -> Seq<TokenView>
    decreases args, args.len() - from,
{
    if from >= args.len() {
        seq![token(TokenType::Cpt, ")"@)]
    } else if from + 1 == args.len() {
        operand_tokens(args[from as int], 0) + args_tokens(args, from + 1)
    } else {
        operand_tokens(args[from as int], 0) + seq![token(TokenType::Com, ","@)] + args_tokens(
            args,
            from + 1,
        )
    }
}

/// The name of a parameter: the text of an identifier.
pub open spec fn parameter_name(param: Ast) -> Seq<char> {
    match param {
        Ast::Identifier(name) => name,
        _ => Seq::empty(),
    }
}

/// The tokens of the parameters from index `from` on, with commas between
/// them and the closing parenthesis behind them.
pub open spec fn params_tokens(params: Seq<Ast>, from: nat) -> Seq<TokenView>
    decreases params.len() - from,
{
    if from >= params.len() {
        seq![token(TokenType::Cpt, ")"@)]
    } else if from + 1 == params.len() {
        seq![token(TokenType::Iden, parameter_name(params[from as int]))] + params_tokens(
            params,
            from + 1,
        )
    } else {
        seq![
            token(TokenType::Iden, parameter_name(params[from as int])),
            token(TokenType::Com, ","@),
        ] + params_tokens(params, from + 1)
    }
}

/// The tokens of a condition in parentheses.
pub open spec fn condition_tokens(condition: Ast) -> Seq<TokenView> {
    seq![token(TokenType::Opt, "("@)] + operand_tokens(condition, 0) + seq![
        token(TokenType::Cpt, ")"@),
    ]
}

/// The tokens of a statement. The `Eof` tree has none, and neither has a
/// tree that is no statement.
pub open spec fn statement_tokens(node: Ast) -> Seq<TokenView>
    decreases node, 0nat,
{
    match node {
        Ast::ImportNode(name) => seq![
            token(TokenType::Import, "import"@),
            token(TokenType::Str, name),
        ],
        Ast::VarDecNode { name, value } => seq![
            token(TokenType::Let, "let"@),
            token(TokenType::Iden, name),
            token(TokenType::Equ, "="@),
        ] + operand_tokens(*value, 0) + seq![token(TokenType::Scln, ";"@)],
        Ast::AssignNode { name, value } => seq![
            token(TokenType::Iden, name),
            token(TokenType::Equ, "="@),
        ] + operand_tokens(*value, 0) + seq![token(TokenType::Scln, ";"@)],
        Ast::BreakNode => seq![token(TokenType::Break, "break"@), token(TokenType::Scln, ";"@)],
        Ast::ReturnNode(Some(value)) => seq![token(TokenType::Return, "return"@)] + operand_tokens(
            *value,
            0,
        ) + seq![token(TokenType::Scln, ";"@)],
        Ast::ReturnNode(None) => seq![
            token(TokenType::Return, "return"@),
            token(TokenType::Scln, ";"@),
        ],
        Ast::FuncDef { name, arguments, block } => seq![
            token(TokenType::Func, "fn"@),
            token(TokenType::Iden, name),
            token(TokenType::Opt, "("@),
        ] + params_tokens(arguments, 0) + block_tokens(block),
        Ast::LoopNode { condition, block } => seq![token(TokenType::Loop, "loop"@)]
            + condition_tokens(*condition) + block_tokens(block),
        Ast::IfElseNode { condition, then_branch, elif_branch, else_branch } => seq![
            token(TokenType::If, "if"@),
        ] + condition_tokens(*condition) + block_tokens(then_branch) + elifs_tokens(
            elif_branch,
            0,
        ) + else_tokens(else_branch),
        Ast::Number(_) => bare_tokens(node) + seq![token(TokenType::Scln, ";"@)],
        Ast::StrLiteral(_) => bare_tokens(node) + seq![token(TokenType::Scln, ";"@)],
        Ast::BoolNode(_) => bare_tokens(node) + seq![token(TokenType::Scln, ";"@)],
        Ast::BinOpNode { op, left, right } => bare_tokens(node) + seq![
            token(TokenType::Scln, ";"@),
        ],
        Ast::FuncCall { name, arguments } => bare_tokens(node) + seq![
            token(TokenType::Scln, ";"@),
        ],
        _ => Seq::empty(),
    }
}

/// The tokens of a block: its statements between braces.
pub open spec fn block_tokens(statements: Seq<Ast>) -> Seq<TokenView>
    decreases statements, statements.len() + 1,
{
    seq![token(TokenType::Ocl, "{"@)] + statements_tokens(statements, 0)
}

/// The tokens of the statements of a block from index `from` on, with the
/// closing brace behind them.
pub open spec fn statements_tokens(statements: Seq<Ast>, from: nat) -> Seq<TokenView>
    decreases statements, statements.len() - from,
{
    if from >= statements.len() {
        seq![token(TokenType::Ccl, "}"@)]
    } else {
        statement_tokens(statements[from as int]) + statements_tokens(statements, from + 1)
    }
}

/// The tokens of the `else` block of a conditional, if it has one.
pub open spec fn else_tokens(else_branch: Option<Seq<Ast>>) -> Seq<TokenView>
    decreases else_branch, 0nat,
{
    match else_branch {
        Some(block) => seq![token(TokenType::Else, "else"@)] + block_tokens(block),
        None => Seq::empty(),
    }
}

/// The tokens of the `elif` clauses of a conditional from index `from` on.
pub open spec fn elifs_tokens(clauses: Seq<(Ast, Seq<Ast>)>, from: nat) -> Seq<TokenView>
    decreases clauses, clauses.len() - from,
{
    if from >= clauses.len() {
        Seq::empty()
    } else {
        seq![token(TokenType::Elif, "elif"@)] + condition_tokens(clauses[from as int].0)
            + block_tokens(clauses[from as int].1) + elifs_tokens(clauses, from + 1)
    }
}

/// The tokens of a program: those of its statements, then the end-of-file
/// token.
pub open spec fn program_tokens(statements: Seq<Ast>, from: nat) -> Seq<TokenView>
    decreases statements.len() - from,
{
    if from >= statements.len() {
        seq![token(TokenType::Eof, Seq::empty())]
    } else {
        statement_tokens(statements[from as int]) + program_tokens(statements, from + 1)
    }
}

// ---------------------------------------------------------------------------
// Writing tokens
// ---------------------------------------------------------------------------

/// Whether the string is the given word.
fn is_word(text: &String, word: &str) -> (same: bool)
    ensures
        same == (text@ == word@),
{
    let other = String::from_str(word);
    *text == other
}

/// The token type of a binary operator, by its text.
fn operator_of(op: &String) -> (ttype: Option<TokenType>)
    ensures
        ttype == operator_type(op@),
{
    if is_word(op, "and") {
        Some(TokenType::And)
    } else if is_word(op, "or") {
        Some(TokenType::Or)
    } else if is_word(op, "==") {
        Some(TokenType::Eqv)
    } else if is_word(op, "<") {
        Some(TokenType::Les)
    } else if is_word(op, "<=") {
        Some(TokenType::Leq)
    } else if is_word(op, ">") {
        Some(TokenType::Gre)
    } else if is_word(op, ">=") {
        Some(TokenType::Geq)
    } else if is_word(op, "+") {
        Some(TokenType::Add)
    } else if is_word(op, "-") {
        Some(TokenType::Sub)
    } else if is_word(op, "*") {
        Some(TokenType::Mul)
    } else if is_word(op, "/") {
        Some(TokenType::Div)
    } else if is_word(op, "%") {
        Some(TokenType::Mod)
    } else {
        None
    }
}

/// The level of the binary operators of a type; 4 for any other type.
fn level_of_type(ttype: TokenType) -> (level: u8)
    ensures
        level == type_level(ttype),
{
    match ttype {
        TokenType::And | TokenType::Or => 0,
        TokenType::Eqv | TokenType::Les | TokenType::Leq | TokenType::Gre | TokenType::Geq => 1,
        TokenType::Add | TokenType::Sub => 2,
        TokenType::Mul | TokenType::Div | TokenType::Mod => 3,
        _ => 4,
    }
}

/// The token type of the operator of a binary node.
fn operator_of_node(node: &ASTNode) -> (ttype: TokenType)
    ensures
        ttype == node_operator(node@),
{
    match node {
        ASTNode::BinOpNode { op, left, right } => match operator_of(op) {
            Some(ttype) => ttype,
            None => TokenType::Eof,
        },
        _ => TokenType::Eof,
    }
}

/// Appends a token with the given text.
fn push_token(out: &mut Vec<Token>, ttype: TokenType, text: &str)
    ensures
        token_views(final(out)@) == token_views(old(out)@) + seq![token(ttype, text@)],
{
    let ghost before = token_views(out@);
    out.push(Token { ttype, value: String::from_str(text), line_num: 1 });
    assert(token_views(out@) =~= before + seq![token(ttype, text@)]);
}

/// Appends a token with a copy of the given text.
fn push_text(out: &mut Vec<Token>, ttype: TokenType, text: &String)
    ensures
        token_views(final(out)@) == token_views(old(out)@) + seq![token(ttype, text@)],
{
    let ghost before = token_views(out@);
    out.push(Token { ttype, value: text.clone(), line_num: 1 });
    assert(token_views(out@) =~= before + seq![token(ttype, text@)]);
}

/// Appends the tokens of an expression that stands as an operand of `level`.
fn write_operand(node: &ASTNode, level: u8, out: &mut Vec<Token>)
    ensures
        token_views(final(out)@) == token_views(old(out)@) + operand_tokens(node@, level as nat),
    decreases node, 1nat,
{
    let ghost before = token_views(out@);
    if level_of_type(operator_of_node(node)) >= level {
        write_bare(node, out);
    } else {
        push_token(out, TokenType::Opt, "(");
        write_bare(node, out);
        push_token(out, TokenType::Cpt, ")");
        assert(token_views(out@) =~= before + operand_tokens(node@, level as nat));
    }
}

/// Appends the tokens of an expression without parentheses around it.
fn write_bare(node: &ASTNode, out: &mut Vec<Token>)
    ensures
        token_views(final(out)@) == token_views(old(out)@) + bare_tokens(node@),
    decreases node, 0nat,
{
    let ghost before = token_views(out@);
    match node {
        ASTNode::Number(lexeme) => {
            push_text(out, TokenType::Num, lexeme);
        },
        ASTNode::StrLiteral(text) => {
            push_text(out, TokenType::Str, text);
        },
        ASTNode::BoolNode(b) => {
            if *b {
                push_token(out, TokenType::True, "true");
            } else {
                push_token(out, TokenType::False, "false");
            }
        },
        ASTNode::Identifier(name) => {
            push_text(out, TokenType::Iden, name);
        },
        ASTNode::FuncCall { name, arguments } => {
            push_text(out, TokenType::Iden, name);
            push_token(out, TokenType::Opt, "(");
            write_args(arguments, out);
            assert(token_views(out@) =~= before + bare_tokens(node@));
        },
        ASTNode::BinOpNode { op, left, right } => {
            let ttype = operator_of_node(node);
            let level = level_of_type(ttype);
            write_operand(left, level, out);
            push_text(out, ttype, op);
            write_operand(right, level + 1, out);
            assert(token_views(out@) =~= before + bare_tokens(node@));
        },
        _ => {
            assert(token_views(out@) =~= before + bare_tokens(node@));
        },
    }
}

/// Appends the tokens of the arguments of a call and its closing parenthesis.
fn write_args(args: &Vec<ASTNode>, out: &mut Vec<Token>)
    ensures
        token_views(final(out)@) == token_views(old(out)@) + args_tokens(ast_views(*args), 0),
    decreases args, 2nat,
{
    let ghost before = token_views(out@);
    let ghost all = ast_views(*args);
    let mut i: usize = 0;
    while i < args.len()
        invariant
            i <= args.len(),
            all == ast_views(*args),
            token_views(out@) + args_tokens(all, i as nat) == before + args_tokens(all, 0),
        decreases args.len() - i,
    {
        let ghost so_far = token_views(out@);
        write_operand(&args[i], 0, out);
        if i + 1 < args.len() {
            push_token(out, TokenType::Com, ",");
        }
        assert(token_views(out@) + args_tokens(all, (i + 1) as nat) =~= so_far + args_tokens(
            all,
            i as nat,
        ));
        i += 1;
    }
    let ghost so_far = token_views(out@);
    push_token(out, TokenType::Cpt, ")");
    assert(token_views(out@) =~= so_far + args_tokens(all, i as nat));
}

/// Appends the tokens of a parameter list and its closing parenthesis.
fn write_params(params: &Vec<ASTNode>, out: &mut Vec<Token>)
    ensures
        token_views(final(out)@) == token_views(old(out)@) + params_tokens(ast_views(*params), 0),
{
    let ghost before = token_views(out@);
    let ghost all = ast_views(*params);
    let mut i: usize = 0;
    while i < params.len()
        invariant
            i <= params.len(),
            all == ast_views(*params),
            token_views(out@) + params_tokens(all, i as nat) == before + params_tokens(all, 0),
        decreases params.len() - i,
    {
        let ghost so_far = token_views(out@);
        match &params[i] {
            ASTNode::Identifier(name) => {
                push_text(out, TokenType::Iden, name);
            },
            _ => {
                push_token(out, TokenType::Iden, "");
                proof {
                    reveal_strlit("");
                    assert(""@ =~= Seq::<char>::empty());
                }
            },
        }
        if i + 1 < params.len() {
            push_token(out, TokenType::Com, ",");
        }
        assert(token_views(out@) + params_tokens(all, (i + 1) as nat) =~= so_far + params_tokens(
            all,
            i as nat,
        ));
        i += 1;
    }
    let ghost so_far = token_views(out@);
    push_token(out, TokenType::Cpt, ")");
    assert(token_views(out@) =~= so_far + params_tokens(all, i as nat));
}

/// Appends the tokens of a condition in parentheses.
fn write_condition(condition: &ASTNode, out: &mut Vec<Token>)
    ensures
        token_views(final(out)@) == token_views(old(out)@) + condition_tokens(condition@),
{
    let ghost before = token_views(out@);
    push_token(out, TokenType::Opt, "(");
    write_operand(condition, 0, out);
    push_token(out, TokenType::Cpt, ")");
    assert(token_views(out@) =~= before + condition_tokens(condition@));
}

/// Appends the tokens of an expression and the semicolon behind it.
fn write_terminated(value: &ASTNode, out: &mut Vec<Token>)
    ensures
        token_views(final(out)@) == token_views(old(out)@) + operand_tokens(value@, 0) + seq![
            token(TokenType::Scln, ";"@),
        ],
{
    write_operand(value, 0, out);
    push_token(out, TokenType::Scln, ";");
}

/// Appends the tokens of a block.
fn write_block(statements: &Vec<ASTNode>, out: &mut Vec<Token>)
    ensures
        token_views(final(out)@) == token_views(old(out)@) + block_tokens(ast_views(*statements)),
    decreases statements, 1nat,
{
    let ghost before = token_views(out@);
    let ghost all = ast_views(*statements);
    push_token(out, TokenType::Ocl, "{");
    let ghost inside = token_views(out@);
    let mut i: usize = 0;
    while i < statements.len()
        invariant
            i <= statements.len(),
            all == ast_views(*statements),
            token_views(out@) + statements_tokens(all, i as nat) == inside + statements_tokens(
                all,
                0,
            ),
        decreases statements.len() - i,
    {
        let ghost so_far = token_views(out@);
        write_statement(&statements[i], out);
        assert(token_views(out@) + statements_tokens(all, (i + 1) as nat) =~= so_far
            + statements_tokens(all, i as nat));
        i += 1;
    }
    let ghost so_far = token_views(out@);
    push_token(out, TokenType::Ccl, "}");
    assert(token_views(out@) =~= so_far + statements_tokens(all, i as nat));
    assert(token_views(out@) =~= before + block_tokens(all));
}

/// Appends the tokens of the `elif` clauses of a conditional.
fn write_elifs(clauses: &Vec<(Box<ASTNode>, Vec<ASTNode>)>, out: &mut Vec<Token>)
    ensures
        token_views(final(out)@) == token_views(old(out)@) + elifs_tokens(
            clause_views(*clauses),
            0,
        ),
    decreases clauses, 1nat,
{
    let ghost before = token_views(out@);
    let ghost all = clause_views(*clauses);
    let mut i: usize = 0;
    while i < clauses.len()
        invariant
            i <= clauses.len(),
            all == clause_views(*clauses),
            token_views(out@) + elifs_tokens(all, i as nat) == before + elifs_tokens(all, 0),
        decreases clauses.len() - i,
    {
        let ghost so_far = token_views(out@);
        push_token(out, TokenType::Elif, "elif");
        write_condition(&clauses[i].0, out);
        write_block(&clauses[i].1, out);
        assert(token_views(out@) + elifs_tokens(all, (i + 1) as nat) =~= so_far + elifs_tokens(
            all,
            i as nat,
        ));
        i += 1;
    }
    assert(token_views(out@) =~= token_views(out@) + elifs_tokens(all, i as nat));
}

/// Appends the tokens of a statement.
#[verifier::rlimit(20)]
fn write_statement(node: &ASTNode, out: &mut Vec<Token>)
    ensures
        token_views(final(out)@) == token_views(old(out)@) + statement_tokens(node@),
    decreases node, 0nat,
{
    let ghost before = token_views(out@);
    let ghost written = statement_tokens(node@);
    match node {
        ASTNode::ImportNode(name) => {
            push_token(out, TokenType::Import, "import");
            push_text(out, TokenType::Str, name);
            assert(token_views(out@) =~= before + written);
        },
        ASTNode::VarDecNode { name, value } => {
            push_token(out, TokenType::Let, "let");
            push_text(out, TokenType::Iden, name);
            push_token(out, TokenType::Equ, "=");
            write_terminated(value, out);
            assert(token_views(out@) =~= before + written);
        },
        ASTNode::AssignNode { name, value } => {
            push_text(out, TokenType::Iden, name);
            push_token(out, TokenType::Equ, "=");
            write_terminated(value, out);
            assert(token_views(out@) =~= before + written);
        },
        ASTNode::BreakNode => {
            push_token(out, TokenType::Break, "break");
            push_token(out, TokenType::Scln, ";");
            assert(token_views(out@) =~= before + written);
        },
        ASTNode::ReturnNode(Some(value)) => {
            push_token(out, TokenType::Return, "return");
            write_terminated(value, out);
            assert(token_views(out@) =~= before + written);
        },
        ASTNode::ReturnNode(None) => {
            push_token(out, TokenType::Return, "return");
            push_token(out, TokenType::Scln, ";");
            assert(token_views(out@) =~= before + written);
        },
        ASTNode::FuncDef { name, arguments, block } => {
            push_token(out, TokenType::Func, "fn");
            push_text(out, TokenType::Iden, name);
            push_token(out, TokenType::Opt, "(");
            write_params(arguments, out);
            write_block(block, out);
            assert(token_views(out@) =~= before + written);
        },
        ASTNode::LoopNode { condition, block } => {
            push_token(out, TokenType::Loop, "loop");
            write_condition(condition, out);
            write_block(block, out);
            assert(token_views(out@) =~= before + written);
        },
        ASTNode::IfElseNode { condition, then_branch, elif_branch, else_branch } => {
            push_token(out, TokenType::If, "if");
            write_condition(condition, out);
            write_block(then_branch, out);
            write_elifs(elif_branch, out);
            let ghost without_else = token_views(out@);
            match else_branch {
                Some(block) => {
                    push_token(out, TokenType::Else, "else");
                    write_block(block, out);
                    assert(token_views(out@) =~= without_else + else_tokens(
                        Some(ast_views(*block)),
                    ));
                },
                None => {
                    assert(token_views(out@) =~= without_else + else_tokens(None));
                },
            }
            assert(token_views(out@) =~= before + written);
        },
        ASTNode::Number(_) => {
            write_bare(node, out);
            push_token(out, TokenType::Scln, ";");
        },
        ASTNode::StrLiteral(_) => {
            write_bare(node, out);
            push_token(out, TokenType::Scln, ";");
        },
        ASTNode::BoolNode(_) => {
            write_bare(node, out);
            push_token(out, TokenType::Scln, ";");
        },
        ASTNode::BinOpNode { op, left, right } => {
            write_bare(node, out);
            push_token(out, TokenType::Scln, ";");
        },
        ASTNode::FuncCall { name, arguments } => {
            write_bare(node, out);
            push_token(out, TokenType::Scln, ";");
        },
        _ => {
            assert(token_views(out@) =~= before + written);
        },
    }
}

/// The canonical tokens of a statement: each operand in parentheses only
/// where the grammar needs them, no comma behind the last argument or
/// parameter, every token on line 1. The `Eof` tree has no tokens, and
/// neither has an identifier, which is no statement.
pub fn to_tokens(node: &ASTNode) -> (tokens: Vec<Token>)
    ensures
        token_views(tokens@) == statement_tokens(node@),
{
    let mut tokens: Vec<Token> = Vec::new();
    assert(token_views(tokens@) =~= Seq::empty());
    write_statement(node, &mut tokens);
    assert(Seq::<TokenView>::empty() + statement_tokens(node@) =~= statement_tokens(node@));
    tokens
}

/// The canonical tokens of a program: those of its statements, one after the
/// other, and the end-of-file token behind them.
pub fn program_to_tokens(statements: &Vec<ASTNode>) -> (tokens: Vec<Token>)
    ensures
        token_views(tokens@) == program_tokens(ast_views(*statements), 0),
{
    let mut tokens: Vec<Token> = Vec::new();
    let ghost all = ast_views(*statements);
    assert(token_views(tokens@) =~= Seq::empty());
    let mut i: usize = 0;
    while i < statements.len()
        invariant
            i <= statements.len(),
            all == ast_views(*statements),
            token_views(tokens@) + program_tokens(all, i as nat) == program_tokens(all, 0),
        decreases statements.len() - i,
    {
        let ghost so_far = token_views(tokens@);
        write_statement(&statements[i], &mut tokens);
        assert(token_views(tokens@) + program_tokens(all, (i + 1) as nat) =~= so_far
            + program_tokens(all, i as nat));
        i += 1;
    }
    let ghost so_far = token_views(tokens@);
    push_token(&mut tokens, TokenType::Eof, "");
    proof {
        reveal_strlit("");
        assert(""@ =~= Seq::<char>::empty());
        assert(token_views(tokens@) =~= so_far + program_tokens(all, i as nat));
    }
    tokens
}

/// The canonical source text of a program: the text of its canonical tokens,
/// with a space behind each. Where the program was parsed from a buffer,
/// scanning and parsing the text gives the same statements again.
pub fn program_to_source(statements: &Vec<ASTNode>) -> (text: String)
    ensures
        text@ == source_text(program_tokens(ast_views(*statements), 0), 0),
{
    let tokens = program_to_tokens(statements);
    to_source(&tokens)
}

} // verus!
