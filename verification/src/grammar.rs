//! The grammar as mathematics: what the parser makes of a sequence of tokens
//! from a given position. Each function returns the outcome (a tree or a
//! failure) together with the position at which parsing stopped.
//!
//! ```text
//! statement  := import | vardecl | funcdef | ifelse | loop
//!             | "break" ";" | "return" [expr] ";"
//!             | IDENT ( "(" [expr ("," expr)*] ")" ";" | "=" expr ";" )
//!             | expr ";"
//! import     := "import" STRING
//! vardecl    := "let" IDENT "=" expr ";"
//! funcdef    := "fn" IDENT "(" [IDENT ("," IDENT)*] ")" block
//! ifelse     := "if" "(" expr ")" block
//!               ("elif" "(" expr ")" block)* ["else" block]
//! loop       := "loop" "(" expr ")" block
//! block      := "{" statement* "}"
//! expr       := logic
//! logic      := comparison (("and"|"or") comparison)*
//! comparison := arith (("=="|"<"|"<="|">"|">=") arith)*
//! arith      := term (("+"|"-") term)*
//! term       := factor (("*"|"/"|"%") factor)*
//! factor     := NUMBER | STRING | "true" | "false" | IDENT
//!             | IDENT "(" [expr ("," expr)*] ")" | "(" expr ")"
//! ```
//!
//! There is no unary minus: `-` is always the subtraction operator.

use crate::lexer::{TokenType, TokenView};
use vstd::prelude::*;

verus! {

/// A syntax tree as a mathematical value.
pub enum Ast {
    Eof,
    /// A numeric literal, by its lexeme.
    Number(Seq<char>),
    Identifier(Seq<char>),
    ImportNode(Seq<char>),
    StrLiteral(Seq<char>),
    BreakNode,
    BoolNode(bool),
    ReturnNode(Option<Box<Ast>>),
    BinOpNode { op: Seq<char>, left: Box<Ast>, right: Box<Ast> },
    VarDecNode { name: Seq<char>, value: Box<Ast> },
    AssignNode { name: Seq<char>, value: Box<Ast> },
    IfElseNode {
        condition: Box<Ast>,
        then_branch: Seq<Ast>,
        elif_branch: Seq<(Ast, Seq<Ast>)>,
        else_branch: Option<Seq<Ast>>,
    },
    LoopNode { condition: Box<Ast>, block: Seq<Ast> },
    FuncCall { name: Seq<char>, arguments: Seq<Ast> },
    FuncDef { name: Seq<char>, arguments: Seq<Ast>, block: Seq<Ast> },
}

/// A parse failure as a mathematical value. Each carries a line number.
pub enum ParseFailure {
    UnexpectedToken(Seq<char>, u32),
    UnterminatedBlock(u32),
    ExpectedSemicolon(u32),
    ExpectedToken(Seq<char>, u32),
}

impl ParseFailure {
    /// The line that the failure carries.
    pub open spec fn line(self) -> u32 {
        match self {
            ParseFailure::UnexpectedToken(_, line) => line,
            ParseFailure::UnterminatedBlock(line) => line,
            ParseFailure::ExpectedSemicolon(line) => line,
            ParseFailure::ExpectedToken(_, line) => line,
        }
    }
}

/// The outcome of parsing and the position at which it stopped.
pub struct Parsed<T> {
    pub result: Result<T, ParseFailure>,
    pub pos: int,
}

pub open spec fn accept<T>(value: T, pos: int) -> Parsed<T> {
    Parsed { result: Ok(value), pos }
}

pub open spec fn reject<T>(failure: ParseFailure, pos: int) -> Parsed<T> {
    Parsed { result: Err(failure), pos }
}

/// The token at `pos`, if there is one.
pub open spec fn token_at(toks: Seq<TokenView>, pos: int) -> Option<TokenView> {
    if 0 <= pos < toks.len() {
        Some(toks[pos])
    } else {
        None
    }
}

/// The position after stepping over one token: one further, but never more
/// than one past the end.
pub open spec fn advance(toks: Seq<TokenView>, pos: int) -> int {
    if pos <= toks.len() {
        pos + 1
    } else {
        pos
    }
}

/// The position before `pos`; position 0 has none.
pub open spec fn retreat(pos: int) -> int {
    if pos > 0 {
        pos - 1
    } else {
        pos
    }
}

/// The number of tokens from `pos` on.
pub open spec fn remaining(toks: Seq<TokenView>, pos: int) -> nat {
    if pos <= toks.len() {
        (toks.len() - pos) as nat
    } else {
        0
    }
}

/// Whether `pos` is at the end: it holds the end-of-file token, or no token.
pub open spec fn at_end(toks: Seq<TokenView>, pos: int) -> bool {
    match token_at(toks, pos) {
        Some(t) => t.ttype == TokenType::Eof,
        None => true,
    }
}

/// The failure reported where a token is needed and the sequence has ended.
pub open spec fn end_of_input() -> ParseFailure {
    ParseFailure::UnexpectedToken("Unexpected end of input"@, 0)
}

/// The outcome in a branch that is never taken. The functions below recurse
/// only where parsing has moved forward, which makes it plain that they
/// terminate; the lemmas of progress in this module show that a successful
/// parse always has moved forward.
pub open spec fn stalled<T>(pos: int) -> Parsed<T> {
    reject(end_of_input(), pos)
}

// ---------------------------------------------------------------------------
// Expressions
// ---------------------------------------------------------------------------

/// The number of binary operator levels. Level 0 binds loosest.
pub open spec fn levels() -> nat {
    4
}

/// Whether a token of type `ttype` is a binary operator of `level`:
/// 0 is `and or`, 1 is `== < <= > >=`, 2 is `+ -`, 3 is `* / %`.
pub open spec fn is_operator(level: nat, ttype: TokenType) -> bool {
    if level == 0 {
        ttype == TokenType::And || ttype == TokenType::Or
    } else if level == 1 {
        ttype == TokenType::Eqv || ttype == TokenType::Les || ttype == TokenType::Leq || ttype
            == TokenType::Gre || ttype == TokenType::Geq
    } else if level == 2 {
        ttype == TokenType::Add || ttype == TokenType::Sub
    } else if level == 3 {
        ttype == TokenType::Mul || ttype == TokenType::Div || ttype == TokenType::Mod
    } else {
        false
    }
}

/// Whether an expression may start with a token of type `ttype`.
pub open spec fn starts_expression(ttype: TokenType) -> bool {
    ttype == TokenType::Iden || ttype == TokenType::Num || ttype == TokenType::Str || ttype
        == TokenType::True || ttype == TokenType::False
}

/// A factor: a literal, a call, an identifier, or an expression in
/// parentheses.
pub open spec fn spec_factor(toks: Seq<TokenView>, pos: int) -> Parsed<Ast>
    decreases remaining(toks, pos), 5int,
{
    match token_at(toks, pos) {
        None => reject(end_of_input(), pos),
        Some(t) => match t.ttype {
            TokenType::Num => accept(Ast::Number(t.value), pos + 1),
            TokenType::Str => accept(Ast::StrLiteral(t.value), pos + 1),
            TokenType::True => accept(Ast::BoolNode(true), pos + 1),
            TokenType::False => accept(Ast::BoolNode(false), pos + 1),
            TokenType::Iden => match token_at(toks, pos + 1) {
                None => reject(end_of_input(), pos + 1),
                Some(next) => if next.ttype == TokenType::Opt {
                    spec_call(toks, pos)
                } else {
                    accept(Ast::Identifier(t.value), pos + 1)
                },
            },
            TokenType::Opt => {
                let inner = spec_expr(toks, pos + 1, false);
                match inner.result {
                    Err(failure) => reject(failure, inner.pos),
                    Ok(node) => match token_at(toks, inner.pos) {
                        None => reject(end_of_input(), inner.pos),
                        Some(close) => if close.ttype == TokenType::Cpt {
                            accept(node, inner.pos + 1)
                        } else {
                            reject(
                                ParseFailure::ExpectedToken(
                                    "closing parenthesis"@,
                                    close.line_num,
                                ),
                                inner.pos,
                            )
                        },
                    },
                }
            },
            _ => reject(ParseFailure::UnexpectedToken(t.value, t.line_num), pos),
        },
    }
}

/// The failure reported where a name is needed and the token is no
/// identifier.
pub open spec fn name_failure(line: u32) -> ParseFailure {
    ParseFailure::ExpectedToken("identifier"@, line)
}

/// A call: an identifier for the name at `pos`, an opening parenthesis, and
/// the argument list.
pub open spec fn spec_call(toks: Seq<TokenView>, pos: int) -> Parsed<Ast>
    decreases remaining(toks, pos), 4int,
{
    match token_at(toks, pos) {
        None => reject(end_of_input(), pos),
        Some(name) => if name.ttype != TokenType::Iden {
            reject(name_failure(name.line_num), pos)
        } else {
            match token_at(toks, pos + 1) {
                None => reject(end_of_input(), pos + 1),
                Some(open) => if open.ttype != TokenType::Opt {
                    reject(ParseFailure::ExpectedToken("("@, open.line_num), pos + 1)
                } else {
                    let args = spec_args(toks, pos + 2, Seq::empty());
                    match args.result {
                        Err(failure) => reject(failure, args.pos),
                        Ok(arguments) => accept(
                            Ast::FuncCall { name: name.value, arguments },
                            args.pos,
                        ),
                    }
                },
            }
        },
    }
}

/// The rest of an argument list from `pos` on, after the arguments `args`:
/// expressions separated by commas, up to the closing parenthesis. The
/// closing parenthesis may stand in the place of the first argument, where
/// the list is empty, but not behind a comma.
pub open spec fn spec_args(toks: Seq<TokenView>, pos: int, args: Seq<Ast>) -> Parsed<Seq<Ast>>
    decreases remaining(toks, pos), 12int,
{
    match token_at(toks, pos) {
        None => reject(end_of_input(), pos),
        Some(t) => if t.ttype == TokenType::Cpt && args.len() == 0 {
            accept(args, pos + 1)
        } else {
            let arg = spec_expr(toks, pos, false);
            match arg.result {
                Err(failure) => reject(failure, arg.pos),
                Ok(node) => match token_at(toks, arg.pos) {
                    None => reject(end_of_input(), arg.pos),
                    Some(sep) => if sep.ttype == TokenType::Com {
                        if arg.pos > pos {
                            spec_args(toks, arg.pos + 1, args.push(node))
                        } else {
                            stalled(arg.pos)
                        }
                    } else if sep.ttype == TokenType::Cpt {
                        accept(args.push(node), arg.pos + 1)
                    } else {
                        reject(
                            ParseFailure::UnexpectedToken(
                                "Error parsing function call arguments"@,
                                sep.line_num,
                            ),
                            arg.pos,
                        )
                    },
                },
            }
        },
    }
}

/// An expression of `level`: expressions of `level + 1` joined by operators
/// of `level`, or a factor where `level` is past the last operator level.
pub open spec fn spec_operand(toks: Seq<TokenView>, pos: int, level: nat) -> Parsed<Ast>
    decreases remaining(toks, pos), if level < levels() {
        10 - level
    } else {
        6
    },
{
    if level >= levels() {
        spec_factor(toks, pos)
    } else {
        let first = spec_operand(toks, pos, level + 1);
        match first.result {
            Err(failure) => reject(failure, first.pos),
            Ok(left) => if first.pos > pos {
                spec_chain(toks, first.pos, level, left)
            } else {
                stalled(first.pos)
            },
        }
    }
}

/// The rest of a chain of `level` from `pos` on, with `left` the tree of what
/// came before: each operator of `level` takes `left` and the operand after
/// it into a new left tree, so that chains associate to the left. The chain
/// ends before the first token that is no operator of `level`.
pub open spec fn spec_chain(toks: Seq<TokenView>, pos: int, level: nat, left: Ast) -> Parsed<Ast>
    decreases remaining(toks, pos), 3int,
{
    match token_at(toks, pos) {
        None => accept(left, pos),
        Some(op) => if is_operator(level, op.ttype) {
            let right = spec_operand(toks, pos + 1, level + 1);
            match right.result {
                Err(failure) => reject(failure, right.pos),
                Ok(node) => if right.pos > pos {
                    spec_chain(
                        toks,
                        right.pos,
                        level,
                        Ast::BinOpNode {
                            op: op.value,
                            left: Box::new(left),
                            right: Box::new(node),
                        },
                    )
                } else {
                    stalled(right.pos)
                },
            }
        } else {
            accept(left, pos)
        },
    }
}

/// An expression. It must start with an identifier, a number, a string or a
/// boolean literal. With `terminate`, a semicolon must follow and is stepped
/// over.
pub open spec fn spec_expr(toks: Seq<TokenView>, pos: int, terminate: bool) -> Parsed<Ast>
    decreases remaining(toks, pos), 11int,
{
    match token_at(toks, pos) {
        None => reject(end_of_input(), pos),
        Some(t) => if starts_expression(t.ttype) {
            let logic = spec_operand(toks, pos, 0);
            match logic.result {
                Err(failure) => reject(failure, logic.pos),
                Ok(node) => if terminate {
                    spec_semicolon(toks, logic.pos, node)
                } else {
                    accept(node, logic.pos)
                },
            }
        } else {
            reject(ParseFailure::UnexpectedToken(t.value, t.line_num), pos)
        },
    }
}

/// The statement `node` once the semicolon at `pos` is stepped over.
pub open spec fn spec_semicolon(toks: Seq<TokenView>, pos: int, node: Ast) -> Parsed<Ast> {
    match token_at(toks, pos) {
        None => reject(end_of_input(), pos),
        Some(t) => if t.ttype == TokenType::Scln {
            accept(node, pos + 1)
        } else {
            reject(ParseFailure::ExpectedSemicolon(t.line_num), pos)
        },
    }
}

// ---------------------------------------------------------------------------
// Statements
// ---------------------------------------------------------------------------

/// An import, from the token after `import` on: a string literal.
pub open spec fn spec_import(toks: Seq<TokenView>, pos: int) -> Parsed<Ast> {
    match token_at(toks, pos) {
        None => reject(end_of_input(), pos),
        Some(t) => if t.ttype == TokenType::Str {
            accept(Ast::ImportNode(t.value), pos + 1)
        } else {
            reject(ParseFailure::UnexpectedToken("Invalid module string"@, t.line_num), pos)
        },
    }
}

/// A variable declaration, from the token after `let` on: an identifier for
/// the name, `=`, and a terminated expression.
pub open spec fn spec_var_def(toks: Seq<TokenView>, pos: int) -> Parsed<Ast> {
    match token_at(toks, pos) {
        None => reject(end_of_input(), pos),
        Some(name) => if name.ttype != TokenType::Iden {
            reject(name_failure(name.line_num), pos)
        } else {
            match token_at(toks, pos + 1) {
                None => reject(end_of_input(), pos + 1),
                Some(sign) => if sign.ttype != TokenType::Equ {
                    reject(ParseFailure::ExpectedToken("="@, sign.line_num), pos + 1)
                } else {
                    let value = spec_expr(toks, pos + 2, true);
                    match value.result {
                        Err(failure) => reject(failure, value.pos),
                        Ok(node) => accept(
                            Ast::VarDecNode { name: name.value, value: Box::new(node) },
                            value.pos,
                        ),
                    }
                },
            }
        },
    }
}

/// An assignment: an identifier for the name at `pos`, `=`, and a terminated
/// expression.
pub open spec fn spec_assign(toks: Seq<TokenView>, pos: int) -> Parsed<Ast> {
    match token_at(toks, pos) {
        None => reject(end_of_input(), pos),
        Some(name) => if name.ttype != TokenType::Iden {
            reject(name_failure(name.line_num), pos)
        } else {
            match token_at(toks, pos + 1) {
                None => reject(end_of_input(), pos + 1),
                Some(sign) => if sign.ttype != TokenType::Equ {
                    reject(ParseFailure::ExpectedToken("="@, sign.line_num), pos + 1)
                } else {
                    let value = spec_expr(toks, pos + 2, true);
                    match value.result {
                        Err(failure) => reject(failure, value.pos),
                        Ok(node) => accept(
                            Ast::AssignNode { name: name.value, value: Box::new(node) },
                            value.pos,
                        ),
                    }
                },
            }
        },
    }
}

/// The failure reported inside a parameter list.
pub open spec fn parameter_failure(line: u32) -> ParseFailure {
    ParseFailure::UnexpectedToken("Error parsing function arguments"@, line)
}

/// A parameter list from its opening parenthesis at `pos` on: `None` for an
/// empty pair of parentheses, else the parameters.
pub open spec fn spec_params(toks: Seq<TokenView>, pos: int) -> Parsed<Option<Seq<Ast>>> {
    match token_at(toks, pos) {
        None => reject(end_of_input(), pos),
        Some(open) => if open.ttype != TokenType::Opt {
            reject(ParseFailure::ExpectedToken("("@, open.line_num), pos)
        } else {
            match token_at(toks, pos + 1) {
                None => reject(end_of_input(), pos + 1),
                Some(t) => if t.ttype == TokenType::Cpt {
                    accept(None, pos + 2)
                } else {
                    spec_params_rest(toks, pos + 1, Seq::empty())
                },
            }
        },
    }
}

/// The rest of a parameter list from `pos` on, after the parameters `params`:
/// an identifier names a parameter, and a comma or the closing parenthesis
/// must follow it. A token that is no identifier is a failure that names it.
pub open spec fn spec_params_rest(toks: Seq<TokenView>, pos: int, params: Seq<Ast>) -> Parsed<
    Option<Seq<Ast>>,
>
    decreases remaining(toks, pos),
{
    match token_at(toks, pos) {
        None => reject(parameter_failure(0), pos),
        Some(t) => if t.ttype != TokenType::Iden {
            reject(ParseFailure::UnexpectedToken(t.value, t.line_num), pos)
        } else {
            let named = params.push(Ast::Identifier(t.value));
            match token_at(toks, pos + 1) {
                None => reject(parameter_failure(0), pos + 1),
                Some(sep) => if sep.ttype == TokenType::Com {
                    spec_params_rest(toks, pos + 2, named)
                } else if sep.ttype == TokenType::Cpt {
                    accept(Some(named), pos + 2)
                } else {
                    reject(parameter_failure(sep.line_num), pos + 1)
                },
            }
        },
    }
}

/// The parameters of a list: none where the parentheses were empty.
pub open spec fn listed(params: Option<Seq<Ast>>) -> Seq<Ast> {
    match params {
        Some(params) => params,
        None => Seq::empty(),
    }
}

/// One statement, chosen by the type of the token at `pos`. The end-of-file
/// token gives the `Eof` tree and is not stepped over.
pub open spec fn spec_statement(toks: Seq<TokenView>, pos: int) -> Parsed<Ast>
    decreases remaining(toks, pos), 4int,
{
    match token_at(toks, pos) {
        None => reject(end_of_input(), pos),
        Some(t) => match t.ttype {
            TokenType::Eof => accept(Ast::Eof, pos),
            TokenType::Import => spec_import(toks, pos + 1),
            TokenType::Let => spec_var_def(toks, pos + 1),
            TokenType::Func => spec_func_def(toks, pos + 1),
            TokenType::If => spec_if_else(toks, pos + 1),
            TokenType::Loop => spec_loop(toks, pos + 1),
            TokenType::Break => spec_semicolon(toks, pos + 1, Ast::BreakNode),
            TokenType::Return => {
                let value = spec_expr(toks, pos + 1, true);
                match value.result {
                    Ok(node) => accept(Ast::ReturnNode(Some(Box::new(node))), value.pos),
                    Err(_) => spec_semicolon(toks, value.pos, Ast::ReturnNode(None)),
                }
            },
            TokenType::Iden => match token_at(toks, pos + 1) {
                None => reject(end_of_input(), pos + 1),
                Some(next) => if next.ttype == TokenType::Opt {
                    let call = spec_call(toks, pos);
                    match call.result {
                        Err(failure) => reject(failure, call.pos),
                        Ok(node) => spec_semicolon(toks, call.pos, node),
                    }
                } else if next.ttype == TokenType::Equ {
                    spec_assign(toks, pos)
                } else {
                    reject(ParseFailure::UnexpectedToken(next.value, next.line_num), pos + 1)
                },
            },
            _ => spec_expr(toks, pos, true),
        },
    }
}

/// A function definition, from the token after `fn` on: an identifier for
/// the name, the parameter list and the body.
pub open spec fn spec_func_def(toks: Seq<TokenView>, pos: int) -> Parsed<Ast>
    decreases remaining(toks, pos), 9int,
{
    match token_at(toks, pos) {
        None => reject(end_of_input(), pos),
        Some(name) => if name.ttype != TokenType::Iden {
            reject(name_failure(name.line_num), pos)
        } else {
            let params = spec_params(toks, pos + 1);
            match params.result {
                Err(failure) => reject(failure, params.pos),
                Ok(arguments) => if params.pos > pos {
                    let body = spec_block(toks, params.pos);
                    match body.result {
                        Err(failure) => reject(failure, body.pos),
                        Ok(block) => accept(
                            Ast::FuncDef { name: name.value, arguments: listed(arguments), block },
                            body.pos,
                        ),
                    }
                } else {
                    stalled(params.pos)
                },
            }
        },
    }
}

/// A condition in parentheses and the block after it, from `pos` on.
pub open spec fn spec_condition_block(toks: Seq<TokenView>, pos: int) -> Parsed<(Ast, Seq<Ast>)>
    decreases remaining(toks, pos), 7int,
{
    match token_at(toks, pos) {
        None => reject(end_of_input(), pos),
        Some(open) => if open.ttype != TokenType::Opt {
            reject(ParseFailure::ExpectedToken("("@, open.line_num), pos)
        } else {
            let condition = spec_expr(toks, pos + 1, false);
            match condition.result {
                Err(failure) => reject(failure, condition.pos),
                Ok(node) => match token_at(toks, condition.pos) {
                    None => reject(end_of_input(), condition.pos),
                    Some(close) => if close.ttype != TokenType::Cpt {
                        reject(ParseFailure::ExpectedToken(")"@, close.line_num), condition.pos)
                    } else if condition.pos > pos {
                        let body = spec_block(toks, condition.pos + 1);
                        match body.result {
                            Err(failure) => reject(failure, body.pos),
                            Ok(block) => accept((node, block), body.pos),
                        }
                    } else {
                        stalled(condition.pos)
                    },
                },
            }
        },
    }
}

/// A loop, from the token after `loop` on.
pub open spec fn spec_loop(toks: Seq<TokenView>, pos: int) -> Parsed<Ast>
    decreases remaining(toks, pos), 9int,
{
    let body = spec_condition_block(toks, pos);
    match body.result {
        Err(failure) => reject(failure, body.pos),
        Ok(pair) => accept(Ast::LoopNode { condition: Box::new(pair.0), block: pair.1 }, body.pos),
    }
}

/// A conditional, from the token after `if` on: the condition and its block,
/// any number of `elif` clauses, and at most one `else` block.
pub open spec fn spec_if_else(toks: Seq<TokenView>, pos: int) -> Parsed<Ast>
    decreases remaining(toks, pos), 9int,
{
    let then = spec_condition_block(toks, pos);
    match then.result {
        Err(failure) => reject(failure, then.pos),
        Ok(pair) => if then.pos > pos {
            spec_elifs(toks, then.pos, pair.0, pair.1, Seq::empty())
        } else {
            stalled(then.pos)
        },
    }
}

/// The rest of a conditional from `pos` on, after its `then_branch` and the
/// `elif` clauses `elifs`.
pub open spec fn spec_elifs(
    toks: Seq<TokenView>,
    pos: int,
    condition: Ast,
    then_branch: Seq<Ast>,
    elifs: Seq<(Ast, Seq<Ast>)>,
) -> Parsed<Ast>
    decreases remaining(toks, pos), 8int,
{
    match token_at(toks, pos) {
        None => reject(end_of_input(), pos),
        Some(t) => if t.ttype == TokenType::Elif {
            let clause = spec_condition_block(toks, pos + 1);
            match clause.result {
                Err(failure) => reject(failure, clause.pos),
                Ok(pair) => if clause.pos > pos {
                    spec_elifs(toks, clause.pos, condition, then_branch, elifs.push(pair))
                } else {
                    stalled(clause.pos)
                },
            }
        } else if t.ttype == TokenType::Else {
            let body = spec_block(toks, pos + 1);
            match body.result {
                Err(failure) => reject(failure, body.pos),
                Ok(block) => accept(
                    Ast::IfElseNode {
                        condition: Box::new(condition),
                        then_branch,
                        elif_branch: elifs,
                        else_branch: Some(block),
                    },
                    body.pos,
                ),
            }
        } else {
            accept(
                Ast::IfElseNode {
                    condition: Box::new(condition),
                    then_branch,
                    elif_branch: elifs,
                    else_branch: None,
                },
                pos,
            )
        },
    }
}

/// A block: an opening brace at `pos`, statements, a closing brace. Whatever
/// goes wrong after the first token behind the opening brace is reported as
/// an unterminated block, with the line of that token.
pub open spec fn spec_block(toks: Seq<TokenView>, pos: int) -> Parsed<Seq<Ast>>
    decreases remaining(toks, pos), 6int,
{
    match token_at(toks, pos) {
        None => reject(end_of_input(), pos),
        Some(open) => if open.ttype != TokenType::Ocl {
            reject(ParseFailure::ExpectedToken("{"@, open.line_num), pos)
        } else {
            match token_at(toks, pos + 1) {
                None => reject(end_of_input(), pos + 1),
                Some(first) => spec_block_rest(toks, pos + 1, first.line_num, Seq::empty()),
            }
        },
    }
}

/// The rest of a block from `pos` on, after the statements `done`; `line` is
/// the line of the first token of the block. The end of the tokens, the
/// end-of-file token and a statement that fails all leave the block
/// unterminated.
pub open spec fn spec_block_rest(toks: Seq<TokenView>, pos: int, line: u32, done: Seq<Ast>) -> Parsed<
    Seq<Ast>,
>
    decreases remaining(toks, pos), 5int,
{
    match token_at(toks, pos) {
        None => reject(ParseFailure::UnterminatedBlock(line), pos),
        Some(t) => if t.ttype == TokenType::Ccl {
            accept(done, pos + 1)
        } else if t.ttype == TokenType::Eof {
            reject(ParseFailure::UnterminatedBlock(line), pos)
        } else {
            let statement = spec_statement(toks, pos);
            match statement.result {
                Err(_) => reject(ParseFailure::UnterminatedBlock(line), statement.pos),
                Ok(node) => if statement.pos > pos {
                    spec_block_rest(toks, statement.pos, line, done.push(node))
                } else {
                    stalled(statement.pos)
                },
            }
        },
    }
}

/// What parsing a whole program gives: the statements that parsed, the
/// failure that stopped parsing, if one did, and the position at which parsing
/// stopped.
pub struct Program {
    pub statements: Seq<Ast>,
    pub failure: Option<ParseFailure>,
    pub pos: int,
}

/// The rest of a program from `pos` on, after the statements `done`:
/// statements are parsed until the position is at the end or one fails.
pub open spec fn spec_program(toks: Seq<TokenView>, pos: int, done: Seq<Ast>) -> Program
    decreases remaining(toks, pos),
    via spec_program_decreases
{
    if at_end(toks, pos) {
        Program { statements: done, failure: None, pos }
    } else {
        let statement = spec_statement(toks, pos);
        match statement.result {
            Err(failure) => Program {
                statements: done,
                failure: Some(failure),
                pos: statement.pos,
            },
            Ok(node) => spec_program(toks, statement.pos, done.push(node)),
        }
    }
}

#[via_fn]
proof fn spec_program_decreases(toks: Seq<TokenView>, pos: int, done: Seq<Ast>) {
    lemma_statement_advances(toks, pos);
}

// ---------------------------------------------------------------------------
// Progress: a successful parse has moved forward
// ---------------------------------------------------------------------------

/// Parsing a factor never moves backwards, and takes at least one token where
/// it succeeds.
pub proof fn lemma_factor_advances(toks: Seq<TokenView>, pos: int)
    ensures
        spec_factor(toks, pos).pos >= pos,
        spec_factor(toks, pos).result is Ok ==> spec_factor(toks, pos).pos > pos,
    decreases remaining(toks, pos), 5int,
{
    if let Some(t) = token_at(toks, pos) {
        if t.ttype == TokenType::Iden {
            lemma_call_advances(toks, pos);
        } else if t.ttype == TokenType::Opt {
            lemma_expr_advances(toks, pos + 1, false);
        }
    }
}

/// Parsing a call never moves backwards, and takes at least one token where it
/// succeeds.
pub proof fn lemma_call_advances(toks: Seq<TokenView>, pos: int)
    ensures
        spec_call(toks, pos).pos >= pos,
        spec_call(toks, pos).result is Ok ==> spec_call(toks, pos).pos > pos,
    decreases remaining(toks, pos), 4int,
{
    if token_at(toks, pos) is Some {
        lemma_args_advance(toks, pos + 2, Seq::empty());
    }
}

/// Parsing an argument list never moves backwards, and takes at least one
/// token where it succeeds.
pub proof fn lemma_args_advance(toks: Seq<TokenView>, pos: int, args: Seq<Ast>)
    ensures
        spec_args(toks, pos, args).pos >= pos,
        spec_args(toks, pos, args).result is Ok ==> spec_args(toks, pos, args).pos > pos,
    decreases remaining(toks, pos), 12int,
{
    if let Some(t) = token_at(toks, pos) {
        if t.ttype != TokenType::Cpt {
            lemma_expr_advances(toks, pos, false);
            let arg = spec_expr(toks, pos, false);
            if let Ok(node) = arg.result {
                if token_at(toks, arg.pos) is Some {
                    lemma_args_advance(toks, arg.pos + 1, args.push(node));
                }
            }
        }
    }
}

/// Parsing an operand never moves backwards, and takes at least one token
/// where it succeeds.
pub proof fn lemma_operand_advances(toks: Seq<TokenView>, pos: int, level: nat)
    ensures
        spec_operand(toks, pos, level).pos >= pos,
        spec_operand(toks, pos, level).result is Ok ==> spec_operand(toks, pos, level).pos > pos,
    decreases remaining(toks, pos), if level < levels() {
        10 - level
    } else {
        6
    },
{
    if level >= levels() {
        lemma_factor_advances(toks, pos);
    } else {
        lemma_operand_advances(toks, pos, level + 1);
        let first = spec_operand(toks, pos, level + 1);
        if let Ok(left) = first.result {
            lemma_chain_advances(toks, first.pos, level, left);
        }
    }
}

/// Parsing the rest of a chain never moves backwards.
pub proof fn lemma_chain_advances(toks: Seq<TokenView>, pos: int, level: nat, left: Ast)
    ensures
        spec_chain(toks, pos, level, left).pos >= pos,
    decreases remaining(toks, pos), 3int,
{
    if let Some(op) = token_at(toks, pos) {
        if is_operator(level, op.ttype) {
            lemma_operand_advances(toks, pos + 1, level + 1);
            let right = spec_operand(toks, pos + 1, level + 1);
            if let Ok(node) = right.result {
                lemma_chain_advances(
                    toks,
                    right.pos,
                    level,
                    Ast::BinOpNode { op: op.value, left: Box::new(left), right: Box::new(node) },
                );
            }
        }
    }
}

/// Parsing an expression never moves backwards, and takes at least one token
/// where it succeeds.
pub proof fn lemma_expr_advances(toks: Seq<TokenView>, pos: int, terminate: bool)
    ensures
        spec_expr(toks, pos, terminate).pos >= pos,
        spec_expr(toks, pos, terminate).result is Ok ==> spec_expr(toks, pos, terminate).pos > pos,
    decreases remaining(toks, pos), 11int,
{
    lemma_operand_advances(toks, pos, 0);
}

/// A parameter list that parses takes at least one token.
pub proof fn lemma_params_advance(toks: Seq<TokenView>, pos: int)
    ensures
        spec_params(toks, pos).result is Ok ==> spec_params(toks, pos).pos > pos,
{
    lemma_params_rest_advances(toks, pos + 1, Seq::empty());
}

/// The rest of a parameter list that parses takes at least one token.
pub proof fn lemma_params_rest_advances(toks: Seq<TokenView>, pos: int, params: Seq<Ast>)
    ensures
        spec_params_rest(toks, pos, params).result is Ok ==> spec_params_rest(
            toks,
            pos,
            params,
        ).pos > pos,
    decreases remaining(toks, pos),
{
    if let Some(t) = token_at(toks, pos) {
        if token_at(toks, pos + 1) is Some {
            lemma_params_rest_advances(toks, pos + 2, params.push(Ast::Identifier(t.value)));
        }
    }
}

/// A statement that parses takes at least one token, unless it is the
/// end-of-file token, which stays where it is.
pub proof fn lemma_statement_advances(toks: Seq<TokenView>, pos: int)
    ensures
        spec_statement(toks, pos).result is Ok ==> spec_statement(toks, pos).pos >= pos,
        spec_statement(toks, pos).result is Ok && !at_end(toks, pos) ==> spec_statement(
            toks,
            pos,
        ).pos > pos,
    decreases remaining(toks, pos), 4int,
{
    if let Some(t) = token_at(toks, pos) {
        lemma_expr_advances(toks, pos, true);
        lemma_expr_advances(toks, pos + 1, true);
        lemma_expr_advances(toks, pos + 2, true);
        lemma_expr_advances(toks, pos + 3, true);
        lemma_call_advances(toks, pos);
        if t.ttype == TokenType::Func {
            lemma_func_def_advances(toks, pos + 1);
        } else if t.ttype == TokenType::If {
            lemma_if_else_advances(toks, pos + 1);
        } else if t.ttype == TokenType::Loop {
            lemma_loop_advances(toks, pos + 1);
        }
    }
}

/// A function definition that parses takes at least one token.
pub proof fn lemma_func_def_advances(toks: Seq<TokenView>, pos: int)
    ensures
        spec_func_def(toks, pos).result is Ok ==> spec_func_def(toks, pos).pos > pos,
    decreases remaining(toks, pos), 9int,
{
    if token_at(toks, pos) is Some {
        lemma_params_advance(toks, pos + 1);
        let params = spec_params(toks, pos + 1);
        if params.result is Ok {
            lemma_block_advances(toks, params.pos);
        }
    }
}

/// A condition with its block that parses takes at least one token.
pub proof fn lemma_condition_block_advances(toks: Seq<TokenView>, pos: int)
    ensures
        spec_condition_block(toks, pos).result is Ok ==> spec_condition_block(toks, pos).pos > pos,
    decreases remaining(toks, pos), 7int,
{
    if token_at(toks, pos) is Some {
        lemma_expr_advances(toks, pos + 1, false);
        let condition = spec_expr(toks, pos + 1, false);
        if condition.result is Ok && token_at(toks, condition.pos) is Some {
            lemma_block_advances(toks, condition.pos + 1);
        }
    }
}

/// A loop that parses takes at least one token.
pub proof fn lemma_loop_advances(toks: Seq<TokenView>, pos: int)
    ensures
        spec_loop(toks, pos).result is Ok ==> spec_loop(toks, pos).pos > pos,
    decreases remaining(toks, pos), 9int,
{
    lemma_condition_block_advances(toks, pos);
}

/// A conditional that parses takes at least one token.
pub proof fn lemma_if_else_advances(toks: Seq<TokenView>, pos: int)
    ensures
        spec_if_else(toks, pos).result is Ok ==> spec_if_else(toks, pos).pos > pos,
    decreases remaining(toks, pos), 9int,
{
    lemma_condition_block_advances(toks, pos);
    let then = spec_condition_block(toks, pos);
    if let Ok(pair) = then.result {
        lemma_elifs_advance(toks, then.pos, pair.0, pair.1, Seq::empty());
    }
}

/// The rest of a conditional that parses never ends before it starts.
pub proof fn lemma_elifs_advance(
    toks: Seq<TokenView>,
    pos: int,
    condition: Ast,
    then_branch: Seq<Ast>,
    elifs: Seq<(Ast, Seq<Ast>)>,
)
    ensures
        spec_elifs(toks, pos, condition, then_branch, elifs).result is Ok ==> spec_elifs(
            toks,
            pos,
            condition,
            then_branch,
            elifs,
        ).pos >= pos,
    decreases remaining(toks, pos), 8int,
{
    if let Some(t) = token_at(toks, pos) {
        if t.ttype == TokenType::Elif {
            lemma_condition_block_advances(toks, pos + 1);
            let clause = spec_condition_block(toks, pos + 1);
            if let Ok(pair) = clause.result {
                lemma_elifs_advance(toks, clause.pos, condition, then_branch, elifs.push(pair));
            }
        } else if t.ttype == TokenType::Else {
            lemma_block_advances(toks, pos + 1);
        }
    }
}

/// A block that parses takes at least one token.
pub proof fn lemma_block_advances(toks: Seq<TokenView>, pos: int)
    ensures
        spec_block(toks, pos).result is Ok ==> spec_block(toks, pos).pos > pos,
    decreases remaining(toks, pos), 6int,
{
    if let Some(first) = token_at(toks, pos + 1) {
        lemma_block_rest_advances(toks, pos + 1, first.line_num, Seq::empty());
    }
}

/// The rest of a block that parses takes at least one token.
pub proof fn lemma_block_rest_advances(toks: Seq<TokenView>, pos: int, line: u32, done: Seq<Ast>)
    ensures
        spec_block_rest(toks, pos, line, done).result is Ok ==> spec_block_rest(
            toks,
            pos,
            line,
            done,
        ).pos > pos,
    decreases remaining(toks, pos), 5int,
{
    if let Some(t) = token_at(toks, pos) {
        if t.ttype != TokenType::Ccl && t.ttype != TokenType::Eof {
            lemma_statement_advances(toks, pos);
            let statement = spec_statement(toks, pos);
            if let Ok(node) = statement.result {
                lemma_block_rest_advances(toks, statement.pos, line, done.push(node));
            }
        }
    }
}

// ---------------------------------------------------------------------------
// The structure of a conditional
// ---------------------------------------------------------------------------

/// The `elif` clauses `clauses` stand at `pos` one after the other, each an
/// `elif` with a condition and a block that parse, and end at `end`.
pub open spec fn elifs_at(
    toks: Seq<TokenView>,
    pos: int,
    clauses: Seq<(Ast, Seq<Ast>)>,
    end: int,
) -> bool
    decreases clauses.len(),
{
    if clauses.len() == 0 {
        end == pos
    } else {
        &&& match token_at(toks, pos) {
            Some(t) => t.ttype == TokenType::Elif,
            None => false,
        }
        &&& spec_condition_block(toks, pos + 1).result == Ok::<(Ast, Seq<Ast>), ParseFailure>(
            clauses[0],
        )
        &&& elifs_at(toks, spec_condition_block(toks, pos + 1).pos, clauses.drop_first(), end)
    }
}

/// Clauses that stand at `pos` are taken up in their order behind the
/// clauses that came before.
pub proof fn lemma_elifs_in_order(
    toks: Seq<TokenView>,
    pos: int,
    condition: Ast,
    then_branch: Seq<Ast>,
    done: Seq<(Ast, Seq<Ast>)>,
    clauses: Seq<(Ast, Seq<Ast>)>,
    end: int,
)
    requires
        elifs_at(toks, pos, clauses, end),
    ensures
        spec_elifs(toks, pos, condition, then_branch, done) == spec_elifs(
            toks,
            end,
            condition,
            then_branch,
            done + clauses,
        ),
    decreases clauses.len(),
{
    if clauses.len() == 0 {
        assert(done + clauses =~= done);
    } else {
        let clause = spec_condition_block(toks, pos + 1);
        lemma_condition_block_advances(toks, pos + 1);
        lemma_elifs_in_order(
            toks,
            clause.pos,
            condition,
            then_branch,
            done.push(clauses[0]),
            clauses.drop_first(),
            end,
        );
        assert(done.push(clauses[0]) + clauses.drop_first() =~= done + clauses);
    }
}

/// The structure of a conditional. Where `if` stands at `pos`, its condition
/// and first block parse, the `elif` clauses `clauses` stand behind them, and
/// behind those either `else` with a block that parses, or a token that is
/// neither `elif` nor `else`, the statement is the conditional with that
/// condition and first block, those clauses in their order, and that `else`
/// block or none; parsing stops behind the last block.
pub proof fn lemma_conditional_structure(
    toks: Seq<TokenView>,
    pos: int,
    condition: Ast,
    then_branch: Seq<Ast>,
    clauses: Seq<(Ast, Seq<Ast>)>,
    else_branch: Option<Seq<Ast>>,
    behind_then: int,
    behind_elifs: int,
    end: int,
)
    requires
        match token_at(toks, pos) {
            Some(t) => t.ttype == TokenType::If,
            None => false,
        },
        spec_condition_block(toks, pos + 1) == accept((condition, then_branch), behind_then),
        elifs_at(toks, behind_then, clauses, behind_elifs),
        match else_branch {
            Some(block) => (match token_at(toks, behind_elifs) {
                Some(t) => t.ttype == TokenType::Else,
                None => false,
            }) && spec_block(toks, behind_elifs + 1) == accept(block, end),
            None => end == behind_elifs && (match token_at(toks, behind_elifs) {
                Some(t) => t.ttype != TokenType::Elif && t.ttype != TokenType::Else,
                None => false,
            }),
        },
    ensures
        spec_statement(toks, pos) == accept(
            Ast::IfElseNode {
                condition: Box::new(condition),
                then_branch,
                elif_branch: clauses,
                else_branch,
            },
            end,
        ),
{
    lemma_condition_block_advances(toks, pos + 1);
    lemma_elifs_in_order(
        toks,
        behind_then,
        condition,
        then_branch,
        Seq::empty(),
        clauses,
        behind_elifs,
    );
    assert(Seq::<(Ast, Seq<Ast>)>::empty() + clauses =~= clauses);
}

} // verus!
