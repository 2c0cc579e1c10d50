//! The parser: recursive descent over a sequence of tokens, with one level of
//! the grammar for each class of binary operators. What each function returns
//! is stated against [`crate::grammar`].

use crate::grammar::{
    accept, advance, at_end, end_of_input, lemma_condition_block_advances, lemma_expr_advances,
    lemma_factor_advances, lemma_operand_advances, lemma_params_advance,
    lemma_statement_advances, reject, remaining, retreat, spec_args, spec_assign, spec_block,
    spec_block_rest, spec_call, spec_chain, spec_condition_block, spec_elifs, spec_expr,
    spec_factor, spec_func_def, spec_if_else, spec_import, spec_loop, spec_operand, spec_params,
    spec_params_rest, spec_program, spec_statement, spec_var_def, token_at, Ast, ParseFailure,
    Parsed, Program,
};
use crate::lexer::{token_views, Token, TokenType, TokenView};
use vstd::prelude::*;

verus! {

/// Why parsing failed. Each failure carries the line of the token at which it
/// was found; line 0 stands for the end of the tokens.
#[derive(Debug, PartialEq, Eq)]
pub enum ParserError {
    UnexpectedToken(String, u32),
    UnterminatedBlock(u32),
    ExpectedSemicolon(u32),
    ExpectedToken(String, u32),
}

/// A syntax tree. Each node owns its children.
#[derive(Debug, PartialEq, Eq)]
pub enum ASTNode {
    Eof,
    /// A numeric literal, by its lexeme: digits with at most one `.`.
    Number(String),
    Identifier(String),
    ImportNode(String),
    StrLiteral(String),
    BreakNode,
    BoolNode(bool),
    ReturnNode(Option<Box<ASTNode>>),
    BinOpNode { op: String, left: Box<ASTNode>, right: Box<ASTNode> },
    VarDecNode { name: String, value: Box<ASTNode> },
    AssignNode { name: String, value: Box<ASTNode> },
    IfElseNode {
        condition: Box<ASTNode>,
        then_branch: Vec<ASTNode>,
        elif_branch: Vec<(Box<ASTNode>, Vec<ASTNode>)>,
        else_branch: Option<Vec<ASTNode>>,
    },
    LoopNode { condition: Box<ASTNode>, block: Vec<ASTNode> },
    FuncCall { name: String, arguments: Vec<ASTNode> },
    FuncDef { name: String, arguments: Vec<ASTNode>, block: Vec<ASTNode> },
}

impl View for ParserError {
    type V = ParseFailure;

    open spec fn view(&self) -> ParseFailure {
        match *self {
            ParserError::UnexpectedToken(text, line) => ParseFailure::UnexpectedToken(text@, line),
            ParserError::UnterminatedBlock(line) => ParseFailure::UnterminatedBlock(line),
            ParserError::ExpectedSemicolon(line) => ParseFailure::ExpectedSemicolon(line),
            ParserError::ExpectedToken(text, line) => ParseFailure::ExpectedToken(text@, line),
        }
    }
}

impl ParserError {
    /// The line that the failure carries.
    pub fn line(&self) -> (line: u32)
        ensures
            line == self@.line(),
    {
        match self {
            ParserError::UnexpectedToken(_, line) => *line,
            ParserError::UnterminatedBlock(line) => *line,
            ParserError::ExpectedSemicolon(line) => *line,
            ParserError::ExpectedToken(_, line) => *line,
        }
    }
}

/// The mathematical value of a tree.
pub open spec fn ast_view(node: ASTNode) -> Ast
    decreases node, 0int,
{
    match node {
        ASTNode::Eof => Ast::Eof,
        ASTNode::Number(lexeme) => Ast::Number(lexeme@),
        ASTNode::Identifier(name) => Ast::Identifier(name@),
        ASTNode::ImportNode(name) => Ast::ImportNode(name@),
        ASTNode::StrLiteral(text) => Ast::StrLiteral(text@),
        ASTNode::BreakNode => Ast::BreakNode,
        ASTNode::BoolNode(b) => Ast::BoolNode(b),
        ASTNode::ReturnNode(value) => Ast::ReturnNode(
            match value {
                Some(node) => Some(Box::new(ast_view(*node))),
                None => None,
            },
        ),
        ASTNode::BinOpNode { op, left, right } => Ast::BinOpNode {
            op: op@,
            left: Box::new(ast_view(*left)),
            right: Box::new(ast_view(*right)),
        },
        ASTNode::VarDecNode { name, value } => Ast::VarDecNode {
            name: name@,
            value: Box::new(ast_view(*value)),
        },
        ASTNode::AssignNode { name, value } => Ast::AssignNode {
            name: name@,
            value: Box::new(ast_view(*value)),
        },
        ASTNode::IfElseNode { condition, then_branch, elif_branch, else_branch } => Ast::IfElseNode {
            condition: Box::new(ast_view(*condition)),
            then_branch: ast_views(then_branch),
            elif_branch: clause_views(elif_branch),
            else_branch: match else_branch {
                Some(block) => Some(ast_views(block)),
                None => None,
            },
        },
        ASTNode::LoopNode { condition, block } => Ast::LoopNode {
            condition: Box::new(ast_view(*condition)),
            block: ast_views(block),
        },
        ASTNode::FuncCall { name, arguments } => Ast::FuncCall {
            name: name@,
            arguments: ast_views(arguments),
        },
        ASTNode::FuncDef { name, arguments, block } => Ast::FuncDef {
            name: name@,
            arguments: ast_views(arguments),
            block: ast_views(block),
        },
    }
}

/// The mathematical values of a vector of trees, in order.
pub open spec fn ast_views(nodes: Vec<ASTNode>) -> Seq<Ast>
    decreases nodes, 1int,
{
    Seq::new(
        nodes.len() as nat,
        |i: int|
            if 0 <= i < nodes.len() {
                ast_view(nodes[i])
            } else {
                Ast::Eof
            },
    )
}

/// The mathematical values of the `elif` clauses of a conditional, in order.
pub open spec fn clause_views(clauses: Vec<(Box<ASTNode>, Vec<ASTNode>)>) -> Seq<(Ast, Seq<Ast>)>
    decreases clauses, 1int,
{
    Seq::new(
        clauses.len() as nat,
        |i: int|
            if 0 <= i < clauses.len() {
                (ast_view(*clauses[i].0), ast_views(clauses[i].1))
            } else {
                (Ast::Eof, Seq::empty())
            },
    )
}

impl View for ASTNode {
    type V = Ast;

    open spec fn view(&self) -> Ast {
        ast_view(*self)
    }
}

/// What a parsing function returned, and where it left the cursor.
pub open spec fn parsed(r: Result<ASTNode, ParserError>, pos: int) -> Parsed<Ast> {
    match r {
        Ok(node) => accept(node@, pos),
        Err(e) => reject(e@, pos),
    }
}

/// What a function that parses a list returned, and where it left the cursor.
pub open spec fn parsed_list(r: Result<Vec<ASTNode>, ParserError>, pos: int) -> Parsed<Seq<Ast>> {
    match r {
        Ok(nodes) => accept(ast_views(nodes), pos),
        Err(e) => reject(e@, pos),
    }
}

/// What the function that parses a parameter list returned, and where it left
/// the cursor.
pub open spec fn parsed_params(r: Result<Option<Vec<ASTNode>>, ParserError>, pos: int) -> Parsed<
    Option<Seq<Ast>>,
> {
    match r {
        Ok(Some(nodes)) => accept(Some(ast_views(nodes)), pos),
        Ok(None) => accept(None, pos),
        Err(e) => reject(e@, pos),
    }
}

/// What the function that parses a condition and its block returned, and where
/// it left the cursor.
pub open spec fn parsed_clause(r: Result<(ASTNode, Vec<ASTNode>), ParserError>, pos: int) -> Parsed<
    (Ast, Seq<Ast>),
> {
    match r {
        Ok(pair) => accept((pair.0@, ast_views(pair.1)), pos),
        Err(e) => reject(e@, pos),
    }
}

/// The view of the failure that stopped a program, if one did.
pub open spec fn failure_view(failure: Option<ParserError>) -> Option<ParseFailure> {
    match failure {
        Some(e) => Some(e@),
        None => None,
    }
}

/// A parser: the tokens and a cursor into them.
pub struct Parser {
    tokens: Vec<Token>,
    pos: usize,
}

impl Parser {
    #[verifier::type_invariant]
    spec fn well_formed(self) -> bool {
        self.pos <= self.tokens.len() + 1 <= usize::MAX
    }

    /// The tokens that the parser reads.
    pub closed spec fn tokens(&self) -> Seq<TokenView> {
        token_views(self.tokens@)
    }

    /// The cursor: the index of the token that is read next.
    pub closed spec fn position(&self) -> int {
        self.pos as int
    }

    /// A parser at the start of `tokens`.
    pub fn new(tokens: Vec<Token>) -> (parser: Self)
        requires
            tokens.len() < usize::MAX,
        ensures
            parser.tokens() == token_views(tokens@),
            parser.position() == 0,
    {
        Self { tokens, pos: 0 }
    }

    /// Steps over one token. Past the end the cursor stays where it is.
    fn consume(&mut self)
        ensures
            final(self).tokens() == old(self).tokens(),
            final(self).position() == advance(old(self).tokens(), old(self).position()),
    {
        proof {
            use_type_invariant(&*self);
        }
        if self.pos <= self.tokens.len() {
            self.pos += 1;
        }
    }

    /// Steps back over one token, to undo one token of lookahead.
    fn puke(&mut self)
        ensures
            final(self).tokens() == old(self).tokens(),
            final(self).position() == retreat(old(self).position()),
    {
        proof {
            use_type_invariant(&*self);
        }
        if self.pos > 0 {
            self.pos -= 1;
        }
    }

    /// The token under the cursor.
    fn current(&self) -> (r: Result<&Token, ParserError>)
        ensures
            match r {
                Ok(token) => token_at(self.tokens(), self.position()) == Some(token@),
                Err(e) => token_at(self.tokens(), self.position()) is None && e@ == end_of_input(),
            },
    {
        if self.pos < self.tokens.len() {
            Ok(&self.tokens[self.pos])
        } else {
            Err(ParserError::UnexpectedToken("Unexpected end of input".to_owned(), 0))
        }
    }

    /// Whether the cursor is at the end: on the end-of-file token, or past
    /// the last token.
    pub fn is_at_end(&self) -> (ended: bool)
        ensures
            ended == at_end(self.tokens(), self.position()),
    {
        match self.current() {
            Ok(token) => token.ttype == TokenType::Eof,
            Err(_) => true,
        }
    }

    /// A factor: a literal, an identifier, a call, or an expression in
    /// parentheses. One token of lookahead tells a call from an identifier.
    fn parse_factor(&mut self) -> (r: Result<ASTNode, ParserError>)
        ensures
            final(self).tokens() == old(self).tokens(),
            parsed(r, final(self).position()) == spec_factor(
                old(self).tokens(),
                old(self).position(),
            ),
        decreases remaining(old(self).tokens(), old(self).position()), 5int,
    {
        let token = match self.current() {
            Ok(token) => token,
            Err(e) => return Err(e),
        };
        match token.ttype {
            TokenType::Num => {
                let lexeme = token.value.clone();
                self.consume();
                Ok(ASTNode::Number(lexeme))
            },
            TokenType::Iden => {
                self.consume();
                let next = match self.current() {
                    Ok(token) => token.ttype,
                    Err(e) => return Err(e),
                };
                self.puke();
                if next == TokenType::Opt {
                    self.parse_func_call()
                } else {
                    let iden = match self.current() {
                        Ok(token) => token.value.clone(),
                        Err(e) => return Err(e),
                    };
                    self.consume();
                    Ok(ASTNode::Identifier(iden))
                }
            },
            TokenType::Str => {
                let text = token.value.clone();
                self.consume();
                Ok(ASTNode::StrLiteral(text))
            },
            TokenType::True => {
                self.consume();
                Ok(ASTNode::BoolNode(true))
            },
            TokenType::False => {
                self.consume();
                Ok(ASTNode::BoolNode(false))
            },
            TokenType::Opt => {
                self.consume();
                let node = match self.parse_expr(false) {
                    Ok(node) => node,
                    Err(e) => return Err(e),
                };
                let next = match self.current() {
                    Ok(token) => token,
                    Err(e) => return Err(e),
                };
                if next.ttype != TokenType::Cpt {
                    return Err(
                        ParserError::ExpectedToken(
                            "closing parenthesis".to_owned(),
                            next.line_num,
                        ),
                    );
                }
                self.consume();
                Ok(node)
            },
            _ => Err(ParserError::UnexpectedToken(token.value.clone(), token.line_num)),
        }
    }

    /// A term: factors joined by `*`, `/` and `%`.
    fn parse_term(&mut self) -> (r: Result<ASTNode, ParserError>)
        ensures
            final(self).tokens() == old(self).tokens(),
            parsed(r, final(self).position()) == spec_operand(
                old(self).tokens(),
                old(self).position(),
                3,
            ),
        decreases remaining(old(self).tokens(), old(self).position()), 7int,
    {
        proof {
            lemma_factor_advances(self.tokens(), self.position());
            assert(spec_operand(self.tokens(), self.position(), 4) == spec_factor(
                self.tokens(),
                self.position(),
            ));
        }
        let mut node = match self.parse_factor() {
            Ok(node) => node,
            Err(e) => return Err(e),
        };
        loop
            invariant
                self.tokens() == old(self).tokens(),
                self.position() > old(self).position(),
                spec_chain(self.tokens(), self.position(), 3, node@) == spec_operand(
                    old(self).tokens(),
                    old(self).position(),
                    3,
                ),
            decreases remaining(self.tokens(), self.position()),
        {
            let token = match self.current() {
                Ok(token) => token,
                Err(_) => return Ok(node),
            };
            match token.ttype {
                TokenType::Mul | TokenType::Div | TokenType::Mod => {
                    let op = token.value.clone();
                    self.consume();
                    proof {
                        lemma_factor_advances(self.tokens(), self.position());
                        assert(spec_operand(self.tokens(), self.position(), 4) == spec_factor(
                            self.tokens(),
                            self.position(),
                        ));
                    }
                    let right = match self.parse_factor() {
                        Ok(right) => right,
                        Err(e) => return Err(e),
                    };
                    node = ASTNode::BinOpNode { op, left: Box::new(node), right: Box::new(right) };
                },
                _ => return Ok(node),
            }
        }
    }

    /// An arithmetic expression: terms joined by `+` and `-`.
    fn parse_arith_expr(&mut self) -> (r: Result<ASTNode, ParserError>)
        ensures
            final(self).tokens() == old(self).tokens(),
            parsed(r, final(self).position()) == spec_operand(
                old(self).tokens(),
                old(self).position(),
                2,
            ),
        decreases remaining(old(self).tokens(), old(self).position()), 8int,
    {
        let mut node = match self.parse_term() {
            Ok(node) => node,
            Err(e) => return Err(e),
        };
        proof {
            lemma_operand_advances(old(self).tokens(), old(self).position(), 3);
        }
        loop
            invariant
                self.tokens() == old(self).tokens(),
                self.position() > old(self).position(),
                spec_chain(self.tokens(), self.position(), 2, node@) == spec_operand(
                    old(self).tokens(),
                    old(self).position(),
                    2,
                ),
            decreases remaining(self.tokens(), self.position()),
        {
            let token = match self.current() {
                Ok(token) => token,
                Err(_) => return Ok(node),
            };
            match token.ttype {
                TokenType::Add | TokenType::Sub => {
                    let op = token.value.clone();
                    self.consume();
                    proof {
                        lemma_operand_advances(self.tokens(), self.position(), 3);
                    }
                    let right = match self.parse_term() {
                        Ok(right) => right,
                        Err(e) => return Err(e),
                    };
                    node = ASTNode::BinOpNode { op, left: Box::new(node), right: Box::new(right) };
                },
                _ => return Ok(node),
            }
        }
    }

    /// A comparison: arithmetic expressions joined by `==`, `<`, `<=`, `>`
    /// and `>=`.
    fn parse_comp_expr(&mut self) -> (r: Result<ASTNode, ParserError>)
        ensures
            final(self).tokens() == old(self).tokens(),
            parsed(r, final(self).position()) == spec_operand(
                old(self).tokens(),
                old(self).position(),
                1,
            ),
        decreases remaining(old(self).tokens(), old(self).position()), 9int,
    {
        let mut node = match self.parse_arith_expr() {
            Ok(node) => node,
            Err(e) => return Err(e),
        };
        proof {
            lemma_operand_advances(old(self).tokens(), old(self).position(), 2);
        }
        loop
            invariant
                self.tokens() == old(self).tokens(),
                self.position() > old(self).position(),
                spec_chain(self.tokens(), self.position(), 1, node@) == spec_operand(
                    old(self).tokens(),
                    old(self).position(),
                    1,
                ),
            decreases remaining(self.tokens(), self.position()),
        {
            let token = match self.current() {
                Ok(token) => token,
                Err(_) => return Ok(node),
            };
            match token.ttype {
                TokenType::Geq
                | TokenType::Leq
                | TokenType::Gre
                | TokenType::Les
                | TokenType::Eqv => {
                    let op = token.value.clone();
                    self.consume();
                    proof {
                        lemma_operand_advances(self.tokens(), self.position(), 2);
                    }
                    let right = match self.parse_arith_expr() {
                        Ok(right) => right,
                        Err(e) => return Err(e),
                    };
                    node = ASTNode::BinOpNode { op, left: Box::new(node), right: Box::new(right) };
                },
                _ => return Ok(node),
            }
        }
    }

    /// A logic expression: comparisons joined by `and` and `or`.
    fn parse_logic_expr(&mut self) -> (r: Result<ASTNode, ParserError>)
        ensures
            final(self).tokens() == old(self).tokens(),
            parsed(r, final(self).position()) == spec_operand(
                old(self).tokens(),
                old(self).position(),
                0,
            ),
        decreases remaining(old(self).tokens(), old(self).position()), 10int,
    {
        let mut node = match self.parse_comp_expr() {
            Ok(node) => node,
            Err(e) => return Err(e),
        };
        proof {
            lemma_operand_advances(old(self).tokens(), old(self).position(), 1);
        }
        loop
            invariant
                self.tokens() == old(self).tokens(),
                self.position() > old(self).position(),
                spec_chain(self.tokens(), self.position(), 0, node@) == spec_operand(
                    old(self).tokens(),
                    old(self).position(),
                    0,
                ),
            decreases remaining(self.tokens(), self.position()),
        {
            let token = match self.current() {
                Ok(token) => token,
                Err(_) => return Ok(node),
            };
            match token.ttype {
                TokenType::And | TokenType::Or => {
                    let op = token.value.clone();
                    self.consume();
                    proof {
                        lemma_operand_advances(self.tokens(), self.position(), 1);
                    }
                    let right = match self.parse_comp_expr() {
                        Ok(right) => right,
                        Err(e) => return Err(e),
                    };
                    node = ASTNode::BinOpNode { op, left: Box::new(node), right: Box::new(right) };
                },
                _ => return Ok(node),
            }
        }
    }

    /// An expression, which must start with an identifier, a number, a string
    /// or a boolean literal. With `terminate`, the semicolon that must follow
    /// is stepped over.
    fn parse_expr(&mut self, terminate: bool) -> (r: Result<ASTNode, ParserError>)
        ensures
            final(self).tokens() == old(self).tokens(),
            parsed(r, final(self).position()) == spec_expr(
                old(self).tokens(),
                old(self).position(),
                terminate,
            ),
        decreases remaining(old(self).tokens(), old(self).position()), 11int,
    {
        let token = match self.current() {
            Ok(token) => token,
            Err(e) => return Err(e),
        };
        match token.ttype {
            TokenType::Iden
            | TokenType::Num
            | TokenType::Str
            | TokenType::True
            | TokenType::False => {
                let node = match self.parse_logic_expr() {
                    Ok(node) => node,
                    Err(e) => return Err(e),
                };
                if terminate {
                    let next = match self.current() {
                        Ok(token) => token,
                        Err(e) => return Err(e),
                    };
                    if next.ttype != TokenType::Scln {
                        return Err(ParserError::ExpectedSemicolon(next.line_num));
                    }
                    self.consume();
                }
                Ok(node)
            },
            _ => Err(ParserError::UnexpectedToken(token.value.clone(), token.line_num)),
        }
    }

    /// A call: an identifier for the name under the cursor, an opening
    /// parenthesis, and the argument list.
    fn parse_func_call(&mut self) -> (r: Result<ASTNode, ParserError>)
        ensures
            final(self).tokens() == old(self).tokens(),
            parsed(r, final(self).position()) == spec_call(
                old(self).tokens(),
                old(self).position(),
            ),
        decreases remaining(old(self).tokens(), old(self).position()), 4int,
    {
        let token = match self.current() {
            Ok(token) => token,
            Err(e) => return Err(e),
        };
        if token.ttype != TokenType::Iden {
            return Err(ParserError::ExpectedToken("identifier".to_owned(), token.line_num));
        }
        let name = token.value.clone();
        self.consume();
        let open = match self.current() {
            Ok(token) => token,
            Err(e) => return Err(e),
        };
        if open.ttype != TokenType::Opt {
            return Err(ParserError::ExpectedToken("(".to_owned(), open.line_num));
        }
        self.consume();
        let arguments = match self.parse_args_call() {
            Ok(arguments) => arguments,
            Err(e) => return Err(e),
        };
        Ok(ASTNode::FuncCall { name, arguments })
    }

    /// An argument list, from behind its opening parenthesis on: expressions
    /// separated by commas, up to the closing parenthesis. No comma may
    /// stand before the closing parenthesis.
    fn parse_args_call(&mut self) -> (r: Result<Vec<ASTNode>, ParserError>)
        ensures
            final(self).tokens() == old(self).tokens(),
            parsed_list(r, final(self).position()) == spec_args(
                old(self).tokens(),
                old(self).position(),
                Seq::empty(),
            ),
        decreases remaining(old(self).tokens(), old(self).position()), 13int,
    {
        let mut arguments: Vec<ASTNode> = Vec::new();
        assert(ast_views(arguments) =~= Seq::empty());
        loop
            invariant
                self.tokens() == old(self).tokens(),
                self.position() >= old(self).position(),
                spec_args(self.tokens(), self.position(), ast_views(arguments)) == spec_args(
                    old(self).tokens(),
                    old(self).position(),
                    Seq::empty(),
                ),
            decreases remaining(self.tokens(), self.position()),
        {
            let token = match self.current() {
                Ok(token) => token,
                Err(e) => return Err(e),
            };
            if token.ttype == TokenType::Cpt && arguments.len() == 0 {
                self.consume();
                return Ok(arguments);
            }
            proof {
                lemma_expr_advances(self.tokens(), self.position(), false);
            }
            let ghost before = ast_views(arguments);
            let node = match self.parse_expr(false) {
                Ok(node) => node,
                Err(e) => return Err(e),
            };
            let ghost arg = node@;
            arguments.push(node);
            assert(ast_views(arguments) =~= before.push(arg));
            let sep = match self.current() {
                Ok(token) => token,
                Err(e) => return Err(e),
            };
            match sep.ttype {
                TokenType::Com => {
                    self.consume();
                },
                TokenType::Cpt => {
                    self.consume();
                    return Ok(arguments);
                },
                _ => {
                    return Err(
                        ParserError::UnexpectedToken(
                            "Error parsing function call arguments".to_owned(),
                            sep.line_num,
                        ),
                    );
                },
            }
        }
    }

    /// Parses one statement from the cursor on, chosen by the type of the
    /// token under it, and leaves the cursor behind the statement. On the
    /// end-of-file token the result is the `Eof` tree and the cursor stays.
    /// The first failure ends the statement and is returned, with two
    /// exceptions: whatever fails inside a block is reported as an
    /// unterminated block, and after `return` an expression that fails to
    /// parse gives a bare `return` if a semicolon stands where it failed.
    pub fn parse_statement(&mut self) -> (r: Result<ASTNode, ParserError>)
        ensures
            final(self).tokens() == old(self).tokens(),
            parsed(r, final(self).position()) == spec_statement(
                old(self).tokens(),
                old(self).position(),
            ),
        decreases remaining(old(self).tokens(), old(self).position()), 4int,
    {
        let token = match self.current() {
            Ok(token) => token,
            Err(e) => return Err(e),
        };
        match token.ttype {
            TokenType::Eof => Ok(ASTNode::Eof),
            TokenType::Import => self.parse_import(),
            TokenType::Let => self.parse_var_def(),
            TokenType::Func => self.parse_func_def(),
            TokenType::If => self.parse_ifelse(),
            TokenType::Loop => self.parse_loop(),
            TokenType::Break => {
                self.consume();
                let next = match self.current() {
                    Ok(token) => token,
                    Err(e) => return Err(e),
                };
                if next.ttype != TokenType::Scln {
                    return Err(ParserError::ExpectedSemicolon(next.line_num));
                }
                self.consume();
                Ok(ASTNode::BreakNode)
            },
            TokenType::Return => {
                self.consume();
                match self.parse_expr(true) {
                    Ok(node) => Ok(ASTNode::ReturnNode(Some(Box::new(node)))),
                    Err(_) => {
                        let next = match self.current() {
                            Ok(token) => token,
                            Err(e) => return Err(e),
                        };
                        if next.ttype != TokenType::Scln {
                            return Err(ParserError::ExpectedSemicolon(next.line_num));
                        }
                        self.consume();
                        Ok(ASTNode::ReturnNode(None))
                    },
                }
            },
            TokenType::Iden => {
                self.consume();
                let next = match self.current() {
                    Ok(token) => token,
                    Err(e) => return Err(e),
                };
                if next.ttype == TokenType::Opt {
                    self.puke();
                    let node = match self.parse_func_call() {
                        Ok(node) => node,
                        Err(e) => return Err(e),
                    };
                    let end = match self.current() {
                        Ok(token) => token,
                        Err(e) => return Err(e),
                    };
                    if end.ttype != TokenType::Scln {
                        return Err(ParserError::ExpectedSemicolon(end.line_num));
                    }
                    self.consume();
                    Ok(node)
                } else if next.ttype == TokenType::Equ {
                    self.puke();
                    self.parse_assign()
                } else {
                    Err(ParserError::UnexpectedToken(next.value.clone(), next.line_num))
                }
            },
            _ => self.parse_expr(true),
        }
    }

    /// An import: the keyword under the cursor is stepped over; a string
    /// literal must follow.
    fn parse_import(&mut self) -> (r: Result<ASTNode, ParserError>)
        ensures
            final(self).tokens() == old(self).tokens(),
            parsed(r, final(self).position()) == spec_import(
                old(self).tokens(),
                advance(old(self).tokens(), old(self).position()),
            ),
    {
        self.consume();
        let token = match self.current() {
            Ok(token) => token,
            Err(e) => return Err(e),
        };
        if token.ttype != TokenType::Str {
            return Err(
                ParserError::UnexpectedToken("Invalid module string".to_owned(), token.line_num),
            );
        }
        let name = token.value.clone();
        self.consume();
        Ok(ASTNode::ImportNode(name))
    }

    /// A block: statements between braces.
    fn parse_block(&mut self) -> (r: Result<Vec<ASTNode>, ParserError>)
        ensures
            final(self).tokens() == old(self).tokens(),
            parsed_list(r, final(self).position()) == spec_block(
                old(self).tokens(),
                old(self).position(),
            ),
        decreases remaining(old(self).tokens(), old(self).position()), 6int,
    {
        let open = match self.current() {
            Ok(token) => token,
            Err(e) => return Err(e),
        };
        if open.ttype != TokenType::Ocl {
            return Err(ParserError::ExpectedToken("{".to_owned(), open.line_num));
        }
        self.consume();
        let line = match self.current() {
            Ok(token) => token.line_num,
            Err(e) => return Err(e),
        };
        let mut statements: Vec<ASTNode> = Vec::new();
        assert(ast_views(statements) =~= Seq::empty());
        loop
            invariant
                self.tokens() == old(self).tokens(),
                self.position() > old(self).position(),
                token_at(old(self).tokens(), old(self).position()) is Some,
                spec_block_rest(self.tokens(), self.position(), line, ast_views(statements))
                    == spec_block(old(self).tokens(), old(self).position()),
            decreases remaining(self.tokens(), self.position()),
        {
            let token = match self.current() {
                Ok(token) => token,
                Err(_) => return Err(ParserError::UnterminatedBlock(line)),
            };
            if token.ttype == TokenType::Ccl {
                self.consume();
                return Ok(statements);
            }
            if token.ttype == TokenType::Eof {
                return Err(ParserError::UnterminatedBlock(line));
            }
            proof {
                lemma_statement_advances(self.tokens(), self.position());
            }
            let ghost before = ast_views(statements);
            match self.parse_statement() {
                Ok(node) => {
                    let ghost statement = node@;
                    statements.push(node);
                    assert(ast_views(statements) =~= before.push(statement));
                },
                Err(_) => return Err(ParserError::UnterminatedBlock(line)),
            }
        }
    }

    /// A variable declaration: the keyword under the cursor is stepped over;
    /// an identifier for the name, `=` and a terminated expression follow.
    fn parse_var_def(&mut self) -> (r: Result<ASTNode, ParserError>)
        ensures
            final(self).tokens() == old(self).tokens(),
            parsed(r, final(self).position()) == spec_var_def(
                old(self).tokens(),
                advance(old(self).tokens(), old(self).position()),
            ),
    {
        self.consume();
        let token = match self.current() {
            Ok(token) => token,
            Err(e) => return Err(e),
        };
        if token.ttype != TokenType::Iden {
            return Err(ParserError::ExpectedToken("identifier".to_owned(), token.line_num));
        }
        let name = token.value.clone();
        self.consume();
        let sign = match self.current() {
            Ok(token) => token,
            Err(e) => return Err(e),
        };
        if sign.ttype != TokenType::Equ {
            return Err(ParserError::ExpectedToken("=".to_owned(), sign.line_num));
        }
        self.consume();
        let value = match self.parse_expr(true) {
            Ok(value) => value,
            Err(e) => return Err(e),
        };
        Ok(ASTNode::VarDecNode { name, value: Box::new(value) })
    }

    /// A function definition: the keyword under the cursor is stepped over;
    /// an identifier for the name, the parameter list and the body follow.
    fn parse_func_def(&mut self) -> (r: Result<ASTNode, ParserError>)
        ensures
            final(self).tokens() == old(self).tokens(),
            parsed(r, final(self).position()) == spec_func_def(
                old(self).tokens(),
                advance(old(self).tokens(), old(self).position()),
            ),
        decreases remaining(old(self).tokens(), advance(old(self).tokens(), old(self).position())),
            9int,
    {
        self.consume();
        let token = match self.current() {
            Ok(token) => token,
            Err(e) => return Err(e),
        };
        if token.ttype != TokenType::Iden {
            return Err(ParserError::ExpectedToken("identifier".to_owned(), token.line_num));
        }
        let name = token.value.clone();
        self.consume();
        proof {
            lemma_params_advance(self.tokens(), self.position());
        }
        let arguments = match self.parse_args_def() {
            Ok(Some(arguments)) => arguments,
            Ok(None) => {
                let none: Vec<ASTNode> = Vec::new();
                assert(ast_views(none) =~= Seq::empty());
                none
            },
            Err(e) => return Err(e),
        };
        let block = match self.parse_block() {
            Ok(block) => block,
            Err(e) => return Err(e),
        };
        Ok(ASTNode::FuncDef { name, arguments, block })
    }

    /// A parameter list: identifiers separated by commas, in parentheses;
    /// `None` for an empty pair of parentheses, else the parameters.
    fn parse_args_def(&mut self) -> (r: Result<Option<Vec<ASTNode>>, ParserError>)
        ensures
            final(self).tokens() == old(self).tokens(),
            parsed_params(r, final(self).position()) == spec_params(
                old(self).tokens(),
                old(self).position(),
            ),
    {
        let open = match self.current() {
            Ok(token) => token,
            Err(e) => return Err(e),
        };
        if open.ttype != TokenType::Opt {
            return Err(ParserError::ExpectedToken("(".to_owned(), open.line_num));
        }
        self.consume();
        let first = match self.current() {
            Ok(token) => token,
            Err(e) => return Err(e),
        };
        if first.ttype == TokenType::Cpt {
            self.consume();
            return Ok(None);
        }
        let mut arguments: Vec<ASTNode> = Vec::new();
        assert(ast_views(arguments) =~= Seq::empty());
        loop
            invariant
                self.tokens() == old(self).tokens(),
                spec_params_rest(self.tokens(), self.position(), ast_views(arguments))
                    == spec_params(old(self).tokens(), old(self).position()),
            decreases remaining(self.tokens(), self.position()),
        {
            let token = match self.current() {
                Ok(token) => token,
                Err(_) => return Err(
                    ParserError::UnexpectedToken(
                        "Error parsing function arguments".to_owned(),
                        0,
                    ),
                ),
            };
            if token.ttype != TokenType::Iden {
                return Err(ParserError::UnexpectedToken(token.value.clone(), token.line_num));
            }
            let ghost before = ast_views(arguments);
            let ghost name = token.value@;
            arguments.push(ASTNode::Identifier(token.value.clone()));
            assert(ast_views(arguments) =~= before.push(Ast::Identifier(name)));
            self.consume();
            let sep = match self.current() {
                Ok(token) => token,
                Err(_) => return Err(
                    ParserError::UnexpectedToken(
                        "Error parsing function arguments".to_owned(),
                        0,
                    ),
                ),
            };
            match sep.ttype {
                TokenType::Com => {
                    self.consume();
                },
                TokenType::Cpt => {
                    self.consume();
                    return Ok(Some(arguments));
                },
                _ => {
                    return Err(
                        ParserError::UnexpectedToken(
                            "Error parsing function arguments".to_owned(),
                            sep.line_num,
                        ),
                    );
                },
            }
        }
    }

    /// A condition in parentheses and the block after it.
    fn parse_condition_block(&mut self) -> (r: Result<(ASTNode, Vec<ASTNode>), ParserError>)
        ensures
            final(self).tokens() == old(self).tokens(),
            parsed_clause(r, final(self).position()) == spec_condition_block(
                old(self).tokens(),
                old(self).position(),
            ),
        decreases remaining(old(self).tokens(), old(self).position()), 7int,
    {
        let open = match self.current() {
            Ok(token) => token,
            Err(e) => return Err(e),
        };
        if open.ttype != TokenType::Opt {
            return Err(ParserError::ExpectedToken("(".to_owned(), open.line_num));
        }
        self.consume();
        proof {
            lemma_expr_advances(self.tokens(), self.position(), false);
        }
        let condition = match self.parse_expr(false) {
            Ok(condition) => condition,
            Err(e) => return Err(e),
        };
        let close = match self.current() {
            Ok(token) => token,
            Err(e) => return Err(e),
        };
        if close.ttype != TokenType::Cpt {
            return Err(ParserError::ExpectedToken(")".to_owned(), close.line_num));
        }
        self.consume();
        let block = match self.parse_block() {
            Ok(block) => block,
            Err(e) => return Err(e),
        };
        Ok((condition, block))
    }

    /// A loop: the keyword under the cursor is stepped over; the condition
    /// and the body follow.
    fn parse_loop(&mut self) -> (r: Result<ASTNode, ParserError>)
        ensures
            final(self).tokens() == old(self).tokens(),
            parsed(r, final(self).position()) == spec_loop(
                old(self).tokens(),
                advance(old(self).tokens(), old(self).position()),
            ),
        decreases remaining(old(self).tokens(), advance(old(self).tokens(), old(self).position())),
            9int,
    {
        self.consume();
        let (condition, block) = match self.parse_condition_block() {
            Ok(pair) => pair,
            Err(e) => return Err(e),
        };
        Ok(ASTNode::LoopNode { condition: Box::new(condition), block })
    }

    /// A conditional: the keyword under the cursor is stepped over; then come
    /// the condition and its block, any number of `elif` clauses, and at most
    /// one `else` block.
    fn parse_ifelse(&mut self) -> (r: Result<ASTNode, ParserError>)
        ensures
            final(self).tokens() == old(self).tokens(),
            parsed(r, final(self).position()) == spec_if_else(
                old(self).tokens(),
                advance(old(self).tokens(), old(self).position()),
            ),
        decreases remaining(old(self).tokens(), advance(old(self).tokens(), old(self).position())),
            9int,
    {
        self.consume();
        proof {
            lemma_condition_block_advances(self.tokens(), self.position());
        }
        let (condition, then_branch) = match self.parse_condition_block() {
            Ok(pair) => pair,
            Err(e) => return Err(e),
        };
        let mut elif_branch: Vec<(Box<ASTNode>, Vec<ASTNode>)> = Vec::new();
        assert(clause_views(elif_branch) =~= Seq::empty());
        loop
            invariant
                self.tokens() == old(self).tokens(),
                self.position() > advance(old(self).tokens(), old(self).position()),
                spec_elifs(
                    self.tokens(),
                    self.position(),
                    condition@,
                    ast_views(then_branch),
                    clause_views(elif_branch),
                ) == spec_if_else(
                    old(self).tokens(),
                    advance(old(self).tokens(), old(self).position()),
                ),
            decreases remaining(self.tokens(), self.position()),
        {
            let token = match self.current() {
                Ok(token) => token,
                Err(e) => return Err(e),
            };
            if token.ttype == TokenType::Elif {
                self.consume();
                proof {
                    lemma_condition_block_advances(self.tokens(), self.position());
                }
                let (elif_condition, elif_block) = match self.parse_condition_block() {
                    Ok(pair) => pair,
                    Err(e) => return Err(e),
                };
                let ghost before = clause_views(elif_branch);
                let ghost clause = (elif_condition@, ast_views(elif_block));
                elif_branch.push((Box::new(elif_condition), elif_block));
                assert(clause_views(elif_branch) =~= before.push(clause));
            } else if token.ttype == TokenType::Else {
                self.consume();
                let block = match self.parse_block() {
                    Ok(block) => block,
                    Err(e) => return Err(e),
                };
                return Ok(
                    ASTNode::IfElseNode {
                        condition: Box::new(condition),
                        then_branch,
                        elif_branch,
                        else_branch: Some(block),
                    },
                );
            } else {
                return Ok(
                    ASTNode::IfElseNode {
                        condition: Box::new(condition),
                        then_branch,
                        elif_branch,
                        else_branch: None,
                    },
                );
            }
        }
    }

    /// An assignment: an identifier for the name under the cursor, `=`, and
    /// a terminated expression for the value.
    fn parse_assign(&mut self) -> (r: Result<ASTNode, ParserError>)
        ensures
            final(self).tokens() == old(self).tokens(),
            parsed(r, final(self).position()) == spec_assign(
                old(self).tokens(),
                old(self).position(),
            ),
    {
        let token = match self.current() {
            Ok(token) => token,
            Err(e) => return Err(e),
        };
        if token.ttype != TokenType::Iden {
            return Err(ParserError::ExpectedToken("identifier".to_owned(), token.line_num));
        }
        let name = token.value.clone();
        self.consume();
        let sign = match self.current() {
            Ok(token) => token,
            Err(e) => return Err(e),
        };
        if sign.ttype != TokenType::Equ {
            return Err(ParserError::ExpectedToken("=".to_owned(), sign.line_num));
        }
        self.consume();
        let value = match self.parse_expr(true) {
            Ok(value) => value,
            Err(e) => return Err(e),
        };
        Ok(ASTNode::AssignNode { name, value: Box::new(value) })
    }

    /// Parses statements until the cursor is at the end or a statement fails.
    /// Returns the statements that parsed, in order, and the failure that
    /// stopped parsing, if one did.
    pub fn parse_program(&mut self) -> (r: (Vec<ASTNode>, Option<ParserError>))
        ensures
            final(self).tokens() == old(self).tokens(),
            (Program {
                statements: ast_views(r.0),
                failure: failure_view(r.1),
                pos: final(self).position(),
            }) == spec_program(old(self).tokens(), old(self).position(), Seq::empty()),
    {
        let mut statements: Vec<ASTNode> = Vec::new();
        assert(ast_views(statements) =~= Seq::empty());
        while !self.is_at_end()
            invariant
                self.tokens() == old(self).tokens(),
                spec_program(self.tokens(), self.position(), ast_views(statements))
                    == spec_program(old(self).tokens(), old(self).position(), Seq::empty()),
            decreases remaining(self.tokens(), self.position()),
        {
            proof {
                lemma_statement_advances(self.tokens(), self.position());
            }
            let ghost before = ast_views(statements);
            match self.parse_statement() {
                Ok(node) => {
                    let ghost statement = node@;
                    statements.push(node);
                    assert(ast_views(statements) =~= before.push(statement));
                },
                Err(e) => return (statements, Some(e)),
            }
        }
        (statements, None)
    }
}

} // verus!
