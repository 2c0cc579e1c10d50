//! The texts in parsed trees: where the text of each token fits its type, as
//! with the tokens that the lexer makes, each name in a parsed tree is an
//! identifier, each number a numeric lexeme and each operator a known one.
//! The canonical tokens of such a tree are tokens that the lexer can make.

use crate::grammar::{
    at_end, is_operator, lemma_statement_advances, levels, listed, remaining, spec_args,
    spec_block, spec_block_rest, spec_call, spec_chain, spec_condition_block, spec_elifs,
    spec_expr, spec_factor, spec_func_def, spec_if_else, spec_loop, spec_operand, spec_params,
    spec_params_rest, spec_program, spec_statement, token_at, Ast,
};
use crate::lexer::{is_number, word_type, TokenType, TokenView};
use crate::serializer::{
    args_tokens, bare_tokens, block_tokens, condition_tokens, elifs_tokens, else_tokens,
    level_of, node_operator, operand_tokens, operator_type, parameter_name, params_tokens,
    program_tokens, statement_tokens, statements_tokens, token, type_level,
};
use crate::source::{are_lexemes, is_lexeme, is_printable, is_printable_stream, is_word};
use vstd::prelude::*;

verus! {

/// An identifier: a word that is no keyword.
pub open spec fn is_name(text: Seq<char>) -> bool {
    is_word(text) && word_type(text) == TokenType::Iden
}

/// Each text in the tree fits its place: names are identifiers, numbers are
/// numeric lexemes, operators are known ones, and parameters are identifiers.
pub open spec fn is_spelled(node: Ast) -> bool
    decreases node, 0nat,
{
    match node {
        Ast::Number(lexeme) => is_number(lexeme),
        Ast::Identifier(name) => is_name(name),
        Ast::ReturnNode(value) => match value {
            Some(value) => is_spelled(*value),
            None => true,
        },
        Ast::BinOpNode { op, left, right } => {
            &&& type_level(node_operator(node)) < 4
            &&& is_lexeme(token(node_operator(node), op))
            &&& is_spelled(*left)
            &&& is_spelled(*right)
        },
        Ast::VarDecNode { name, value } => is_name(name) && is_spelled(*value),
        Ast::AssignNode { name, value } => is_name(name) && is_spelled(*value),
        Ast::IfElseNode { condition, then_branch, elif_branch, else_branch } => {
            &&& is_spelled(*condition)
            &&& are_spelled(then_branch)
            &&& are_spelled_clauses(elif_branch)
            &&& match else_branch {
                Some(block) => are_spelled(block),
                None => true,
            }
        },
        Ast::LoopNode { condition, block } => is_spelled(*condition) && are_spelled(block),
        Ast::FuncCall { name, arguments } => is_name(name) && are_spelled(arguments),
        Ast::FuncDef { name, arguments, block } => {
            &&& is_name(name)
            &&& are_names(arguments)
            &&& are_spelled(block)
        },
        _ => true,
    }
}

/// Each tree of the sequence is spelled.
pub open spec fn are_spelled(nodes: Seq<Ast>) -> bool
    decreases nodes, 1nat,
{
    forall|i: int| 0 <= i < nodes.len() ==> is_spelled(#[trigger] nodes[i])
}

/// Each clause of the sequence is spelled.
pub open spec fn are_spelled_clauses(clauses: Seq<(Ast, Seq<Ast>)>) -> bool
    decreases clauses, 1nat,
{
    forall|i: int|
        0 <= i < clauses.len() ==> is_spelled((#[trigger] clauses[i]).0) && are_spelled(
            clauses[i].1,
        )
}

/// The tree is an identifier with a name that is one.
pub open spec fn is_parameter(param: Ast) -> bool {
    match param {
        Ast::Identifier(name) => is_name(name),
        _ => false,
    }
}

/// Each tree of the sequence is an identifier with a name that is one.
pub open spec fn are_names(params: Seq<Ast>) -> bool {
    forall|i: int| 0 <= i < params.len() ==> is_parameter(#[trigger] params[i])
}

/// An operator token whose text fits its type carries the text of its
/// operator.
pub proof fn lemma_lexeme_spells_operator(t: TokenView)
    requires
        is_lexeme(t),
        type_level(t.ttype) < 4,
    ensures
        operator_type(t.value) == Some(t.ttype),
{
    reveal_strlit("and");
    reveal_strlit("or");
    reveal_strlit("==");
    reveal_strlit("<");
    reveal_strlit("<=");
    reveal_strlit(">");
    reveal_strlit(">=");
    reveal_strlit("+");
    reveal_strlit("-");
    reveal_strlit("*");
    reveal_strlit("/");
    reveal_strlit("%");
    assert("+"@ =~= seq!['+']);
    assert("-"@ =~= seq!['-']);
    assert("*"@ =~= seq!['*']);
    assert("/"@ =~= seq!['/']);
    assert("%"@ =~= seq!['%']);
    assert("<"@ =~= seq!['<']);
    assert(">"@ =~= seq!['>']);
    assert("=="@ =~= seq!['=', '=']);
    assert("<="@ =~= seq!['<', '=']);
    assert(">="@ =~= seq!['>', '=']);
    if t.value.len() == 1 {
        assert(t.value =~= seq![t.value[0]]);
    }
}

/// A factor that parses is spelled.
pub proof fn lemma_factor_spelled(toks: Seq<TokenView>, pos: int)
    requires
        are_lexemes(toks),
    ensures
        spec_factor(toks, pos).result matches Ok(node) ==> is_spelled(node),
    decreases remaining(toks, pos), 5int,
{
    if let Some(t) = token_at(toks, pos) {
        assert(is_lexeme(toks[pos]));
        if t.ttype == TokenType::Iden {
            lemma_call_spelled(toks, pos);
        } else if t.ttype == TokenType::Opt {
            lemma_expr_spelled(toks, pos + 1, false);
        }
    }
}

/// A call that parses is spelled.
pub proof fn lemma_call_spelled(toks: Seq<TokenView>, pos: int)
    requires
        are_lexemes(toks),
    ensures
        spec_call(toks, pos).result matches Ok(node) ==> is_spelled(node),
    decreases remaining(toks, pos), 4int,
{
    if token_at(toks, pos) is Some {
        assert(is_lexeme(toks[pos]));
        lemma_args_spelled(toks, pos + 2, Seq::empty());
    }
}

/// The arguments of a list that parses are spelled.
pub proof fn lemma_args_spelled(toks: Seq<TokenView>, pos: int, args: Seq<Ast>)
    requires
        are_lexemes(toks),
        are_spelled(args),
    ensures
        spec_args(toks, pos, args).result matches Ok(all) ==> are_spelled(all),
    decreases remaining(toks, pos), 12int,
{
    if let Some(t) = token_at(toks, pos) {
        if !(t.ttype == TokenType::Cpt && args.len() == 0) {
            lemma_expr_spelled(toks, pos, false);
            let arg = spec_expr(toks, pos, false);
            if let Ok(node) = arg.result {
                if token_at(toks, arg.pos) is Some && arg.pos > pos {
                    lemma_args_spelled(toks, arg.pos + 1, args.push(node));
                }
            }
        }
    }
}

/// An operand that parses is spelled.
pub proof fn lemma_operand_spelled(toks: Seq<TokenView>, pos: int, level: nat)
    requires
        are_lexemes(toks),
    ensures
        spec_operand(toks, pos, level).result matches Ok(node) ==> is_spelled(node),
    decreases remaining(toks, pos), if level < levels() {
        10 - level
    } else {
        6
    },
{
    if level >= levels() {
        lemma_factor_spelled(toks, pos);
    } else {
        lemma_operand_spelled(toks, pos, level + 1);
        let first = spec_operand(toks, pos, level + 1);
        if let Ok(left) = first.result {
            if first.pos > pos {
                lemma_chain_spelled(toks, first.pos, level, left);
            }
        }
    }
}

/// A chain that parses is spelled.
pub proof fn lemma_chain_spelled(toks: Seq<TokenView>, pos: int, level: nat, left: Ast)
    requires
        are_lexemes(toks),
        is_spelled(left),
    ensures
        spec_chain(toks, pos, level, left).result matches Ok(node) ==> is_spelled(node),
    decreases remaining(toks, pos), 3int,
{
    if let Some(op) = token_at(toks, pos) {
        if is_operator(level, op.ttype) {
            lemma_operand_spelled(toks, pos + 1, level + 1);
            let right = spec_operand(toks, pos + 1, level + 1);
            if let Ok(node) = right.result {
                if right.pos > pos {
                    let joined = Ast::BinOpNode {
                        op: op.value,
                        left: Box::new(left),
                        right: Box::new(node),
                    };
                    assert(is_lexeme(toks[pos]));
                    lemma_lexeme_spells_operator(op);
                    assert(node_operator(joined) == op.ttype);
                    assert(is_lexeme(token(op.ttype, op.value)));
                    lemma_chain_spelled(toks, right.pos, level, joined);
                }
            }
        }
    }
}

/// An expression that parses is spelled.
pub proof fn lemma_expr_spelled(toks: Seq<TokenView>, pos: int, terminate: bool)
    requires
        are_lexemes(toks),
    ensures
        spec_expr(toks, pos, terminate).result matches Ok(node) ==> is_spelled(node),
    decreases remaining(toks, pos), 11int,
{
    lemma_operand_spelled(toks, pos, 0);
}

/// The parameters of a list that parses are identifiers that are spelled.
pub proof fn lemma_params_spelled(toks: Seq<TokenView>, pos: int)
    requires
        are_lexemes(toks),
    ensures
        spec_params(toks, pos).result matches Ok(params) ==> are_names(listed(params)),
{
    lemma_params_rest_spelled(toks, pos + 1, Seq::empty());
}

/// The parameters of the rest of a list that parses are identifiers that are
/// spelled.
pub proof fn lemma_params_rest_spelled(toks: Seq<TokenView>, pos: int, params: Seq<Ast>)
    requires
        are_lexemes(toks),
        are_names(params),
    ensures
        spec_params_rest(toks, pos, params).result matches Ok(all) ==> are_names(listed(all)),
    decreases remaining(toks, pos),
{
    if let Some(t) = token_at(toks, pos) {
        assert(is_lexeme(toks[pos]));
        if t.ttype == TokenType::Iden && token_at(toks, pos + 1) is Some {
            lemma_params_rest_spelled(toks, pos + 2, params.push(Ast::Identifier(t.value)));
        }
    }
}

/// A statement that parses is spelled.
pub proof fn lemma_statement_spelled(toks: Seq<TokenView>, pos: int)
    requires
        are_lexemes(toks),
    ensures
        spec_statement(toks, pos).result matches Ok(node) ==> is_spelled(node),
    decreases remaining(toks, pos), 4int,
{
    if let Some(t) = token_at(toks, pos) {
        assert(is_lexeme(toks[pos]));
        if token_at(toks, pos + 1) is Some {
            assert(is_lexeme(toks[pos + 1]));
        }
        if t.ttype == TokenType::Func {
            lemma_func_def_spelled(toks, pos + 1);
        } else if t.ttype == TokenType::If {
            lemma_if_else_spelled(toks, pos + 1);
        } else if t.ttype == TokenType::Loop {
            lemma_loop_spelled(toks, pos + 1);
        } else if t.ttype == TokenType::Let {
            lemma_expr_spelled(toks, pos + 3, true);
        } else if t.ttype == TokenType::Return {
            lemma_expr_spelled(toks, pos + 1, true);
        } else if t.ttype == TokenType::Iden {
            lemma_call_spelled(toks, pos);
            lemma_expr_spelled(toks, pos + 2, true);
        } else {
            lemma_expr_spelled(toks, pos, true);
        }
    }
}

/// A function definition that parses is spelled.
pub proof fn lemma_func_def_spelled(toks: Seq<TokenView>, pos: int)
    requires
        are_lexemes(toks),
    ensures
        spec_func_def(toks, pos).result matches Ok(node) ==> is_spelled(node),
    decreases remaining(toks, pos), 9int,
{
    if token_at(toks, pos) is Some {
        assert(is_lexeme(toks[pos]));
        lemma_params_spelled(toks, pos + 1);
        let params = spec_params(toks, pos + 1);
        if params.result is Ok && params.pos > pos {
            lemma_block_spelled(toks, params.pos);
        }
    }
}

/// A condition with its block that parses is spelled.
pub proof fn lemma_condition_block_spelled(toks: Seq<TokenView>, pos: int)
    requires
        are_lexemes(toks),
    ensures
        spec_condition_block(toks, pos).result matches Ok(pair) ==> is_spelled(pair.0)
            && are_spelled(pair.1),
    decreases remaining(toks, pos), 7int,
{
    if token_at(toks, pos) is Some {
        lemma_expr_spelled(toks, pos + 1, false);
        let condition = spec_expr(toks, pos + 1, false);
        if condition.result is Ok && token_at(toks, condition.pos) is Some && condition.pos > pos {
            lemma_block_spelled(toks, condition.pos + 1);
        }
    }
}

/// A loop that parses is spelled.
pub proof fn lemma_loop_spelled(toks: Seq<TokenView>, pos: int)
    requires
        are_lexemes(toks),
    ensures
        spec_loop(toks, pos).result matches Ok(node) ==> is_spelled(node),
    decreases remaining(toks, pos), 9int,
{
    lemma_condition_block_spelled(toks, pos);
}

/// A conditional that parses is spelled.
pub proof fn lemma_if_else_spelled(toks: Seq<TokenView>, pos: int)
    requires
        are_lexemes(toks),
    ensures
        spec_if_else(toks, pos).result matches Ok(node) ==> is_spelled(node),
    decreases remaining(toks, pos), 9int,
{
    lemma_condition_block_spelled(toks, pos);
    let then = spec_condition_block(toks, pos);
    if let Ok(pair) = then.result {
        if then.pos > pos {
            lemma_elifs_spelled(toks, then.pos, pair.0, pair.1, Seq::empty());
        }
    }
}

/// The rest of a conditional that parses gives a spelled tree.
pub proof fn lemma_elifs_spelled(
    toks: Seq<TokenView>,
    pos: int,
    condition: Ast,
    then_branch: Seq<Ast>,
    elifs: Seq<(Ast, Seq<Ast>)>,
)
    requires
        are_lexemes(toks),
        is_spelled(condition),
        are_spelled(then_branch),
        are_spelled_clauses(elifs),
    ensures
        spec_elifs(toks, pos, condition, then_branch, elifs).result matches Ok(node)
            ==> is_spelled(node),
    decreases remaining(toks, pos), 8int,
{
    if let Some(t) = token_at(toks, pos) {
        if t.ttype == TokenType::Elif {
            lemma_condition_block_spelled(toks, pos + 1);
            let clause = spec_condition_block(toks, pos + 1);
            if let Ok(pair) = clause.result {
                if clause.pos > pos {
                    lemma_elifs_spelled(
                        toks,
                        clause.pos,
                        condition,
                        then_branch,
                        elifs.push(pair),
                    );
                }
            }
        } else if t.ttype == TokenType::Else {
            lemma_block_spelled(toks, pos + 1);
        }
    }
}

/// The statements of a block that parses are spelled.
pub proof fn lemma_block_spelled(toks: Seq<TokenView>, pos: int)
    requires
        are_lexemes(toks),
    ensures
        spec_block(toks, pos).result matches Ok(statements) ==> are_spelled(statements),
    decreases remaining(toks, pos), 6int,
{
    if token_at(toks, pos) is Some {
        if let Some(first) = token_at(toks, pos + 1) {
            lemma_block_rest_spelled(toks, pos + 1, first.line_num, Seq::empty());
        }
    }
}

/// The statements of the rest of a block that parses are spelled.
pub proof fn lemma_block_rest_spelled(toks: Seq<TokenView>, pos: int, line: u32, done: Seq<Ast>)
    requires
        are_lexemes(toks),
        are_spelled(done),
    ensures
        spec_block_rest(toks, pos, line, done).result matches Ok(statements) ==> are_spelled(
            statements,
        ),
    decreases remaining(toks, pos), 5int,
{
    if let Some(t) = token_at(toks, pos) {
        if t.ttype != TokenType::Ccl && t.ttype != TokenType::Eof {
            lemma_statement_spelled(toks, pos);
            let statement = spec_statement(toks, pos);
            if let Ok(node) = statement.result {
                if statement.pos > pos {
                    lemma_block_rest_spelled(toks, statement.pos, line, done.push(node));
                }
            }
        }
    }
}

/// The statements of a program that parses without failure are spelled.
pub proof fn lemma_program_spelled(toks: Seq<TokenView>, pos: int, done: Seq<Ast>)
    requires
        are_lexemes(toks),
        are_spelled(done),
    ensures
        spec_program(toks, pos, done).failure is None ==> are_spelled(
            spec_program(toks, pos, done).statements,
        ),
    decreases remaining(toks, pos),
{
    if !at_end(toks, pos) {
        lemma_statement_spelled(toks, pos);
        lemma_statement_advances(toks, pos);
        let statement = spec_statement(toks, pos);
        if let Ok(node) = statement.result {
            lemma_program_spelled(toks, statement.pos, done.push(node));
        }
    }
}

// ---------------------------------------------------------------------------
// The canonical tokens of spelled trees
// ---------------------------------------------------------------------------

/// Each token of the sequence is one that the lexer can make, on line 1, and
/// none is the end-of-file token.
pub open spec fn are_plain(tokens: Seq<TokenView>) -> bool {
    forall|i: int|
        0 <= i < tokens.len() ==> is_printable(#[trigger] tokens[i]) && tokens[i].ttype
            != TokenType::Eof
}

/// Plain tokens behind plain tokens are plain tokens.
pub proof fn lemma_plain_join(first: Seq<TokenView>, second: Seq<TokenView>)
    requires
        are_plain(first),
        are_plain(second),
    ensures
        are_plain(first + second),
{
    let whole = first + second;
    assert forall|i: int| 0 <= i < whole.len() implies is_printable(#[trigger] whole[i])
        && whole[i].ttype != TokenType::Eof by {
        if i < first.len() {
            assert(whole[i] == first[i]);
        } else {
            assert(whole[i] == second[i - first.len()]);
        }
    }
}

/// The symbols that the serializer writes are tokens that the lexer can make.
pub proof fn lemma_symbols_plain()
    ensures
        are_plain(seq![token(TokenType::Opt, "("@)]),
        are_plain(seq![token(TokenType::Cpt, ")"@)]),
        are_plain(seq![token(TokenType::Ocl, "{"@)]),
        are_plain(seq![token(TokenType::Ccl, "}"@)]),
        are_plain(seq![token(TokenType::Com, ","@)]),
        are_plain(seq![token(TokenType::Scln, ";"@)]),
        are_plain(seq![token(TokenType::Equ, "="@)]),
{
    reveal_strlit("(");
    reveal_strlit(")");
    reveal_strlit("{");
    reveal_strlit("}");
    reveal_strlit(",");
    reveal_strlit(";");
    reveal_strlit("=");
    assert("="@ =~= seq!['=']);
}

/// The keywords as sequences of characters.
proof fn lemma_keyword_texts()
    ensures
        "loop"@ == seq!['l', 'o', 'o', 'p'],
        "if"@ == seq!['i', 'f'],
        "elif"@ == seq!['e', 'l', 'i', 'f'],
        "else"@ == seq!['e', 'l', 's', 'e'],
        "true"@ == seq!['t', 'r', 'u', 'e'],
        "false"@ == seq!['f', 'a', 'l', 's', 'e'],
        "break"@ == seq!['b', 'r', 'e', 'a', 'k'],
        "return"@ == seq!['r', 'e', 't', 'u', 'r', 'n'],
        "import"@ == seq!['i', 'm', 'p', 'o', 'r', 't'],
        "pub"@ == seq!['p', 'u', 'b'],
        "fn"@ == seq!['f', 'n'],
        "and"@ == seq!['a', 'n', 'd'],
        "or"@ == seq!['o', 'r'],
        "let"@ == seq!['l', 'e', 't'],
{
    reveal_strlit("loop");
    reveal_strlit("if");
    reveal_strlit("elif");
    reveal_strlit("else");
    reveal_strlit("true");
    reveal_strlit("false");
    reveal_strlit("break");
    reveal_strlit("return");
    reveal_strlit("import");
    reveal_strlit("pub");
    reveal_strlit("fn");
    reveal_strlit("and");
    reveal_strlit("or");
    reveal_strlit("let");
    assert("loop"@ =~= seq!['l', 'o', 'o', 'p']);
    assert("if"@ =~= seq!['i', 'f']);
    assert("elif"@ =~= seq!['e', 'l', 'i', 'f']);
    assert("else"@ =~= seq!['e', 'l', 's', 'e']);
    assert("true"@ =~= seq!['t', 'r', 'u', 'e']);
    assert("false"@ =~= seq!['f', 'a', 'l', 's', 'e']);
    assert("break"@ =~= seq!['b', 'r', 'e', 'a', 'k']);
    assert("return"@ =~= seq!['r', 'e', 't', 'u', 'r', 'n']);
    assert("import"@ =~= seq!['i', 'm', 'p', 'o', 'r', 't']);
    assert("pub"@ =~= seq!['p', 'u', 'b']);
    assert("fn"@ =~= seq!['f', 'n']);
    assert("and"@ =~= seq!['a', 'n', 'd']);
    assert("or"@ =~= seq!['o', 'r']);
    assert("let"@ =~= seq!['l', 'e', 't']);
}

/// A keyword is the word of its own type.
proof fn lemma_keyword_plain(ttype: TokenType, text: Seq<char>)
    requires
        (ttype == TokenType::Loop && text == "loop"@) || (ttype == TokenType::If && text == "if"@)
            || (ttype == TokenType::Elif && text == "elif"@) || (ttype == TokenType::Else && text
            == "else"@) || (ttype == TokenType::True && text == "true"@) || (ttype
            == TokenType::False && text == "false"@) || (ttype == TokenType::Break && text
            == "break"@) || (ttype == TokenType::Return && text == "return"@) || (ttype
            == TokenType::Import && text == "import"@) || (ttype == TokenType::Func && text
            == "fn"@) || (ttype == TokenType::Let && text == "let"@),
    ensures
        are_plain(seq![token(ttype, text)]),
{
    lemma_keyword_texts();
    let first = text[0];
    assert(first == 'l' || first == 'i' || first == 'e' || first == 't' || first == 'f' || first
        == 'b' || first == 'r');
    assert(is_word(text));
    assert(word_type(text) == ttype) by {
        assert(text.len() >= 2);
        assert("elif"@[2] != "else"@[2]);
        assert("loop"@[1] != "let"@[1] || "loop"@.len() != "let"@.len());
        assert("if"@[1] != "fn"@[1] || "if"@[0] != "fn"@[0]);
        assert("true"@[0] != "else"@[0]);
        assert("true"@[0] != "elif"@[0]);
        assert("true"@[0] != "loop"@[0]);
        assert("else"@[0] != "loop"@[0]);
        assert("elif"@[0] != "loop"@[0]);
        assert("false"@[0] != "break"@[0]);
        assert("return"@[0] != "import"@[0]);
        assert("pub"@[0] != "let"@[0]);
        assert("and"@[0] != "let"@[0]);
        assert("pub"@[0] != "and"@[0]);
        assert("if"@[0] != "or"@[0]);
        assert("fn"@[0] != "or"@[0]);
    }
}

/// A token with a text of the tree is a token that the lexer can make.
proof fn lemma_text_plain(ttype: TokenType, text: Seq<char>)
    requires
        ttype != TokenType::Eof,
        is_lexeme(token(ttype, text)),
    ensures
        are_plain(seq![token(ttype, text)]),
{
}

/// A name is a token that the lexer can make.
proof fn lemma_name_plain(name: Seq<char>)
    requires
        is_name(name),
    ensures
        are_plain(seq![token(TokenType::Iden, name)]),
{
}

/// The canonical tokens of a spelled operand are plain.
pub proof fn lemma_operand_plain(node: Ast, level: nat)
    requires
        is_spelled(node),
    ensures
        are_plain(operand_tokens(node, level)),
    decreases node, 1nat,
{
    lemma_bare_plain(node);
    lemma_symbols_plain();
    if level_of(node) < level {
        lemma_plain_join(seq![token(TokenType::Opt, "("@)], bare_tokens(node));
        lemma_plain_join(
            seq![token(TokenType::Opt, "("@)] + bare_tokens(node),
            seq![token(TokenType::Cpt, ")"@)],
        );
    }
}

/// The canonical tokens of a spelled expression are plain.
pub proof fn lemma_bare_plain(node: Ast)
    requires
        is_spelled(node),
    ensures
        are_plain(bare_tokens(node)),
    decreases node, 0nat,
{
    match node {
        Ast::Number(lexeme) => {
            lemma_text_plain(TokenType::Num, lexeme);
        },
        Ast::StrLiteral(text) => {
            lemma_text_plain(TokenType::Str, text);
        },
        Ast::BoolNode(b) => {
            if b {
                lemma_keyword_plain(TokenType::True, "true"@);
            } else {
                lemma_keyword_plain(TokenType::False, "false"@);
            }
        },
        Ast::Identifier(name) => {
            lemma_name_plain(name);
        },
        Ast::FuncCall { name, arguments } => {
            lemma_name_plain(name);
            lemma_symbols_plain();
            lemma_args_plain(arguments, 0);
            let start = seq![token(TokenType::Iden, name), token(TokenType::Opt, "("@)];
            assert(start =~= seq![token(TokenType::Iden, name)] + seq![
                token(TokenType::Opt, "("@),
            ]);
            lemma_plain_join(
                seq![token(TokenType::Iden, name)],
                seq![token(TokenType::Opt, "("@)],
            );
            lemma_plain_join(start, args_tokens(arguments, 0));
        },
        Ast::BinOpNode { op, left, right } => {
            lemma_operand_plain(*left, level_of(node));
            lemma_operand_plain(*right, level_of(node) + 1);
            lemma_text_plain(node_operator(node), op);
            lemma_plain_join(
                operand_tokens(*left, level_of(node)),
                seq![token(node_operator(node), op)],
            );
            lemma_plain_join(
                operand_tokens(*left, level_of(node)) + seq![token(node_operator(node), op)],
                operand_tokens(*right, level_of(node) + 1),
            );
        },
        _ => {},
    }
}

/// The canonical tokens of spelled arguments are plain.
pub proof fn lemma_args_plain(args: Seq<Ast>, from: nat)
    requires
        are_spelled(args),
    ensures
        are_plain(args_tokens(args, from)),
    decreases args, args.len() - from,
{
    lemma_symbols_plain();
    if from < args.len() {
        let first = operand_tokens(args[from as int], 0);
        lemma_operand_plain(args[from as int], 0);
        lemma_args_plain(args, from + 1);
        if from + 1 == args.len() {
            lemma_plain_join(first, args_tokens(args, from + 1));
        } else {
            lemma_plain_join(first, seq![token(TokenType::Com, ","@)]);
            lemma_plain_join(first + seq![token(TokenType::Com, ","@)], args_tokens(args, from + 1));
        }
    }
}

/// The canonical tokens of parameters that are names are plain.
pub proof fn lemma_params_plain(params: Seq<Ast>, from: nat)
    requires
        are_names(params),
    ensures
        are_plain(params_tokens(params, from)),
    decreases params.len() - from,
{
    lemma_symbols_plain();
    if from < params.len() {
        let param = params[from as int];
        assert(is_parameter(param));
        let name = seq![token(TokenType::Iden, parameter_name(param))];
        lemma_name_plain(parameter_name(param));
        lemma_params_plain(params, from + 1);
        if from + 1 == params.len() {
            lemma_plain_join(name, params_tokens(params, from + 1));
        } else {
            let start = seq![
                token(TokenType::Iden, parameter_name(param)),
                token(TokenType::Com, ","@),
            ];
            assert(start =~= name + seq![token(TokenType::Com, ","@)]);
            lemma_plain_join(name, seq![token(TokenType::Com, ","@)]);
            lemma_plain_join(start, params_tokens(params, from + 1));
        }
    }
}

/// The canonical tokens of a spelled condition are plain.
pub proof fn lemma_condition_plain(condition: Ast)
    requires
        is_spelled(condition),
    ensures
        are_plain(condition_tokens(condition)),
{
    lemma_symbols_plain();
    lemma_operand_plain(condition, 0);
    lemma_plain_join(seq![token(TokenType::Opt, "("@)], operand_tokens(condition, 0));
    lemma_plain_join(
        seq![token(TokenType::Opt, "("@)] + operand_tokens(condition, 0),
        seq![token(TokenType::Cpt, ")"@)],
    );
}

/// The canonical tokens of a spelled value with a semicolon behind it are
/// plain behind plain tokens.
proof fn lemma_terminated_plain(start: Seq<TokenView>, value: Ast)
    requires
        are_plain(start),
        is_spelled(value),
    ensures
        are_plain(start + operand_tokens(value, 0) + seq![token(TokenType::Scln, ";"@)]),
{
    lemma_symbols_plain();
    lemma_operand_plain(value, 0);
    lemma_plain_join(start, operand_tokens(value, 0));
    lemma_plain_join(start + operand_tokens(value, 0), seq![token(TokenType::Scln, ";"@)]);
}

/// Two and three plain tokens in a row are plain tokens.
proof fn lemma_plain_row(a: TokenView, b: TokenView, c: TokenView)
    requires
        are_plain(seq![a]),
        are_plain(seq![b]),
        are_plain(seq![c]),
    ensures
        are_plain(seq![a, b]),
        are_plain(seq![a, b, c]),
{
    assert(seq![a, b] =~= seq![a] + seq![b]);
    lemma_plain_join(seq![a], seq![b]);
    assert(seq![a, b, c] =~= seq![a, b] + seq![c]);
    lemma_plain_join(seq![a, b], seq![c]);
}

/// The canonical tokens of a spelled statement are plain.
pub proof fn lemma_statement_plain(node: Ast)
    requires
        is_spelled(node),
    ensures
        are_plain(statement_tokens(node)),
    decreases node, 0nat,
{
    lemma_symbols_plain();
    let semicolon = token(TokenType::Scln, ";"@);
    let equals = token(TokenType::Equ, "="@);
    let open = token(TokenType::Opt, "("@);
    match node {
        Ast::ImportNode(name) => {
            lemma_keyword_plain(TokenType::Import, "import"@);
            lemma_text_plain(TokenType::Str, name);
            lemma_plain_row(token(TokenType::Import, "import"@), token(TokenType::Str, name), open);
        },
        Ast::VarDecNode { name, value } => {
            lemma_keyword_plain(TokenType::Let, "let"@);
            lemma_name_plain(name);
            lemma_plain_row(token(TokenType::Let, "let"@), token(TokenType::Iden, name), equals);
            lemma_terminated_plain(
                seq![token(TokenType::Let, "let"@), token(TokenType::Iden, name), equals],
                *value,
            );
        },
        Ast::AssignNode { name, value } => {
            lemma_name_plain(name);
            lemma_plain_row(token(TokenType::Iden, name), equals, open);
            lemma_terminated_plain(seq![token(TokenType::Iden, name), equals], *value);
        },
        Ast::BreakNode => {
            lemma_keyword_plain(TokenType::Break, "break"@);
            lemma_plain_row(token(TokenType::Break, "break"@), semicolon, open);
        },
        Ast::ReturnNode(Some(value)) => {
            lemma_keyword_plain(TokenType::Return, "return"@);
            lemma_terminated_plain(seq![token(TokenType::Return, "return"@)], *value);
        },
        Ast::ReturnNode(None) => {
            lemma_keyword_plain(TokenType::Return, "return"@);
            lemma_plain_row(token(TokenType::Return, "return"@), semicolon, open);
        },
        Ast::FuncDef { name, arguments, block } => {
            lemma_keyword_plain(TokenType::Func, "fn"@);
            lemma_name_plain(name);
            lemma_plain_row(token(TokenType::Func, "fn"@), token(TokenType::Iden, name), open);
            lemma_params_plain(arguments, 0);
            lemma_block_plain(block);
            let start = seq![token(TokenType::Func, "fn"@), token(TokenType::Iden, name), open];
            lemma_plain_join(start, params_tokens(arguments, 0));
            lemma_plain_join(start + params_tokens(arguments, 0), block_tokens(block));
        },
        Ast::LoopNode { condition, block } => {
            lemma_keyword_plain(TokenType::Loop, "loop"@);
            lemma_condition_plain(*condition);
            lemma_block_plain(block);
            let start = seq![token(TokenType::Loop, "loop"@)];
            lemma_plain_join(start, condition_tokens(*condition));
            lemma_plain_join(start + condition_tokens(*condition), block_tokens(block));
        },
        Ast::IfElseNode { condition, then_branch, elif_branch, else_branch } => {
            lemma_keyword_plain(TokenType::If, "if"@);
            lemma_condition_plain(*condition);
            lemma_block_plain(then_branch);
            lemma_elifs_plain(elif_branch, 0);
            lemma_else_plain(else_branch);
            let start = seq![token(TokenType::If, "if"@)];
            let first = condition_tokens(*condition);
            let then = block_tokens(then_branch);
            let elifs = elifs_tokens(elif_branch, 0);
            lemma_plain_join(start, first);
            lemma_plain_join(start + first, then);
            lemma_plain_join(start + first + then, elifs);
            lemma_plain_join(start + first + then + elifs, else_tokens(else_branch));
        },
        Ast::Number(_) => {
            lemma_bare_plain(node);
            lemma_plain_join(bare_tokens(node), seq![semicolon]);
        },
        Ast::StrLiteral(_) => {
            lemma_bare_plain(node);
            lemma_plain_join(bare_tokens(node), seq![semicolon]);
        },
        Ast::BoolNode(_) => {
            lemma_bare_plain(node);
            lemma_plain_join(bare_tokens(node), seq![semicolon]);
        },
        Ast::BinOpNode { op, left, right } => {
            lemma_bare_plain(node);
            lemma_plain_join(bare_tokens(node), seq![semicolon]);
        },
        Ast::FuncCall { name, arguments } => {
            lemma_bare_plain(node);
            lemma_plain_join(bare_tokens(node), seq![semicolon]);
        },
        _ => {},
    }
}

/// The canonical tokens of a block of spelled statements are plain.
pub proof fn lemma_block_plain(statements: Seq<Ast>)
    requires
        are_spelled(statements),
    ensures
        are_plain(block_tokens(statements)),
    decreases statements, statements.len() + 1,
{
    lemma_symbols_plain();
    lemma_statements_plain(statements, 0);
    lemma_plain_join(seq![token(TokenType::Ocl, "{"@)], statements_tokens(statements, 0));
}

/// The canonical tokens of spelled statements from index `from` on are
/// plain.
pub proof fn lemma_statements_plain(statements: Seq<Ast>, from: nat)
    requires
        are_spelled(statements),
    ensures
        are_plain(statements_tokens(statements, from)),
    decreases statements, statements.len() - from,
{
    lemma_symbols_plain();
    if from < statements.len() {
        lemma_statement_plain(statements[from as int]);
        lemma_statements_plain(statements, from + 1);
        lemma_plain_join(
            statement_tokens(statements[from as int]),
            statements_tokens(statements, from + 1),
        );
    }
}

/// The canonical tokens of spelled `elif` clauses are plain.
pub proof fn lemma_elifs_plain(clauses: Seq<(Ast, Seq<Ast>)>, from: nat)
    requires
        are_spelled_clauses(clauses),
    ensures
        are_plain(elifs_tokens(clauses, from)),
    decreases clauses, clauses.len() - from,
{
    if from < clauses.len() {
        let clause = clauses[from as int];
        lemma_keyword_plain(TokenType::Elif, "elif"@);
        lemma_condition_plain(clause.0);
        lemma_block_plain(clause.1);
        lemma_elifs_plain(clauses, from + 1);
        let start = seq![token(TokenType::Elif, "elif"@)];
        lemma_plain_join(start, condition_tokens(clause.0));
        lemma_plain_join(start + condition_tokens(clause.0), block_tokens(clause.1));
        lemma_plain_join(
            start + condition_tokens(clause.0) + block_tokens(clause.1),
            elifs_tokens(clauses, from + 1),
        );
    }
}

/// The canonical tokens of a spelled `else` block are plain.
pub proof fn lemma_else_plain(else_branch: Option<Seq<Ast>>)
    requires
        else_branch matches Some(block) ==> are_spelled(block),
    ensures
        are_plain(else_tokens(else_branch)),
    decreases else_branch, 0nat,
{
    match else_branch {
        Some(block) => {
            lemma_keyword_plain(TokenType::Else, "else"@);
            lemma_block_plain(block);
            lemma_plain_join(seq![token(TokenType::Else, "else"@)], block_tokens(block));
        },
        None => {},
    }
}

/// The canonical tokens of a program of spelled statements are plain up to
/// the end-of-file token, which ends them.
pub proof fn lemma_program_plain(statements: Seq<Ast>, from: nat)
    requires
        are_spelled(statements),
    ensures
        is_printable_stream(program_tokens(statements, from)),
    decreases statements.len() - from,
{
    let tokens = program_tokens(statements, from);
    if from < statements.len() {
        let first = statement_tokens(statements[from as int]);
        let rest = program_tokens(statements, from + 1);
        lemma_statement_plain(statements[from as int]);
        lemma_program_plain(statements, from + 1);
        assert(tokens == first + rest);
        assert forall|i: int| 0 <= i < tokens.len() implies is_printable(#[trigger] tokens[i]) by {
            if i < first.len() {
                assert(tokens[i] == first[i]);
            } else {
                assert(tokens[i] == rest[i - first.len()]);
            }
        }
        assert(tokens.last() == rest.last());
        assert forall|i: int| 0 <= i < tokens.len() - 1 implies (#[trigger] tokens[i]).ttype
            != TokenType::Eof by {
            if i < first.len() {
                assert(tokens[i] == first[i]);
            } else {
                assert(tokens[i] == rest[i - first.len()]);
            }
        }
    }
}

} // verus!
