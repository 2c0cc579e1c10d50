use langfront::lexer::{tokenize, Token, TokenType};
use langfront::parser::{ASTNode, Parser, ParserError};

fn parser_for(src: &str) -> Parser {
    Parser::new(tokenize(src))
}

fn parse_one(src: &str) -> Result<ASTNode, ParserError> {
    parser_for(src).parse_statement()
}

fn num(lexeme: &str) -> ASTNode {
    ASTNode::Number(lexeme.to_string())
}

fn ident(name: &str) -> ASTNode {
    ASTNode::Identifier(name.to_string())
}

fn text(s: &str) -> ASTNode {
    ASTNode::StrLiteral(s.to_string())
}

fn binop(op: &str, left: ASTNode, right: ASTNode) -> ASTNode {
    ASTNode::BinOpNode { op: op.to_string(), left: Box::new(left), right: Box::new(right) }
}

fn call(name: &str, arguments: Vec<ASTNode>) -> ASTNode {
    ASTNode::FuncCall { name: name.to_string(), arguments }
}

fn assign(name: &str, value: ASTNode) -> ASTNode {
    ASTNode::AssignNode { name: name.to_string(), value: Box::new(value) }
}

fn var(name: &str, value: ASTNode) -> ASTNode {
    ASTNode::VarDecNode { name: name.to_string(), value: Box::new(value) }
}

fn unexpected(what: &str, line: u32) -> ParserError {
    ParserError::UnexpectedToken(what.to_string(), line)
}

fn expected(what: &str, line: u32) -> ParserError {
    ParserError::ExpectedToken(what.to_string(), line)
}

fn value_of(node: &ASTNode) -> f64 {
    match node {
        ASTNode::Number(lexeme) => lexeme.parse::<f64>().unwrap_or_default(),
        _ => panic!("not a number"),
    }
}

fn tok(ttype: TokenType, value: &str, line_num: u32) -> Token {
    Token { ttype, value: value.to_string(), line_num }
}

#[test]
fn multiplication_binds_tighter_than_addition() {
    assert_eq!(
        parse_one("1 + 2 * 3;"),
        Ok(binop("+", num("1"), binop("*", num("2"), num("3"))))
    );
    assert_eq!(
        parse_one("1 * 2 + 3;"),
        Ok(binop("+", binop("*", num("1"), num("2")), num("3")))
    );
}

#[test]
fn number_nodes_hold_the_literal() {
    match parse_one("1 + 2 * 3;") {
        Ok(ASTNode::BinOpNode { op, left, right }) => {
            assert_eq!(op, "+");
            assert_eq!(value_of(&left), 1.0);
            match *right {
                ASTNode::BinOpNode { op, left, right } => {
                    assert_eq!(op, "*");
                    assert_eq!(value_of(&left), 2.0);
                    assert_eq!(value_of(&right), 3.0);
                }
                _ => panic!("right operand is no product"),
            }
        }
        other => panic!("unexpected result {:?}", other),
    }
    match parse_one("2.50;") {
        Ok(node) => {
            assert_eq!(node, num("2.50"));
            assert_eq!(value_of(&node), 2.5);
        }
        other => panic!("unexpected result {:?}", other),
    }
}

#[test]
fn subtraction_associates_to_the_left() {
    assert_eq!(
        parse_one("8 - 3 - 2;"),
        Ok(binop("-", binop("-", num("8"), num("3")), num("2")))
    );
}

#[test]
fn every_level_associates_to_the_left() {
    assert_eq!(
        parse_one("8 / 4 % 3 * 2;"),
        Ok(binop("*", binop("%", binop("/", num("8"), num("4")), num("3")), num("2")))
    );
    assert_eq!(
        parse_one("1 < 2 == true;"),
        Ok(binop("==", binop("<", num("1"), num("2")), ASTNode::BoolNode(true)))
    );
    assert_eq!(
        parse_one("true and false or true;"),
        Ok(binop(
            "or",
            binop("and", ASTNode::BoolNode(true), ASTNode::BoolNode(false)),
            ASTNode::BoolNode(true)
        ))
    );
}

#[test]
fn levels_bind_in_order() {
    assert_eq!(
        parse_one("x = a or b and c == d + e * f;"),
        Ok(assign(
            "x",
            binop(
                "and",
                binop("or", ident("a"), ident("b")),
                binop("==", ident("c"), binop("+", ident("d"), binop("*", ident("e"), ident("f"))))
            )
        ))
    );
    assert_eq!(
        parse_one("1 * 2 + 3 < 4 and 5 >= 6 - 7 / 8;"),
        Ok(binop(
            "and",
            binop("<", binop("+", binop("*", num("1"), num("2")), num("3")), num("4")),
            binop(">=", num("5"), binop("-", num("6"), binop("/", num("7"), num("8"))))
        ))
    );
}

#[test]
fn comparison_operators_build_binary_nodes() {
    for op in ["==", "<", "<=", ">", ">="] {
        let src = format!("1 {} 2;", op);
        assert_eq!(parse_one(&src), Ok(binop(op, num("1"), num("2"))));
    }
}

#[test]
fn parentheses_group_after_the_first_operand() {
    assert_eq!(
        parse_one("2 * (3 + 4);"),
        Ok(binop("*", num("2"), binop("+", num("3"), num("4"))))
    );
    assert_eq!(
        parse_one("1 - (2 - (3 - 4));"),
        Ok(binop("-", num("1"), binop("-", num("2"), binop("-", num("3"), num("4")))))
    );
}

#[test]
fn expression_cannot_start_with_a_parenthesis() {
    assert_eq!(parse_one("(1 + 2) * 3;"), Err(unexpected("(", 1)));
    assert_eq!(parse_one("x = (1);"), Err(unexpected("(", 1)));
    assert_eq!(parse_one("1 + ((2));"), Err(unexpected("(", 1)));
}

#[test]
fn there_is_no_unary_minus() {
    assert_eq!(parse_one("-1;"), Err(unexpected("-", 1)));
    assert_eq!(parse_one("x = -y;"), Err(unexpected("-", 1)));
    assert_eq!(parse_one("1 + -2;"), Err(unexpected("-", 1)));
}

#[test]
fn missing_closing_parenthesis() {
    assert_eq!(parse_one("1 * (2 + 3;"), Err(expected("closing parenthesis", 1)));
    assert_eq!(parse_one("1 * (2 + 3\n\n}"), Err(expected("closing parenthesis", 3)));
}

#[test]
fn comments_and_white_space_do_not_change_the_tree() {
    let with_comment = parse_one("1 + # comment\n 2;");
    let without = parse_one("1 +\n2;");
    assert_eq!(with_comment, without);
    assert_eq!(with_comment, Ok(binop("+", num("1"), num("2"))));
    assert_eq!(parse_one("1+2;"), without);
    assert_eq!(parse_one("\n\n  1\t+\r\n2  ;  # end"), without);
}

#[test]
fn call_statement_without_arguments() {
    assert_eq!(parse_one("f();"), Ok(call("f", vec![])));
}

#[test]
fn lone_identifier_statement_is_unexpected() {
    assert_eq!(parse_one("f;"), Err(unexpected(";", 1)));
    assert_eq!(parse_one("f + 1;"), Err(unexpected("+", 1)));
    assert_eq!(parse_one("f g;"), Err(unexpected("g", 1)));
    assert_eq!(parse_one("\nf\n==\n1;"), Err(unexpected("==", 3)));
}

#[test]
fn call_statement_with_arguments() {
    assert_eq!(
        parse_one("f(1, g(x), \"s\", a + b);"),
        Ok(call(
            "f",
            vec![num("1"), call("g", vec![ident("x")]), text("s"), binop("+", ident("a"), ident("b"))]
        ))
    );
}

#[test]
fn argument_list_may_not_end_in_a_comma() {
    assert_eq!(parse_one("f(1,);"), Err(unexpected(")", 1)));
    assert_eq!(parse_one("x = f(1, 2,\n);"), Err(unexpected(")", 2)));
    assert_eq!(parse_one("f(,);"), Err(unexpected(",", 1)));
}

#[test]
fn call_statement_needs_a_semicolon() {
    assert_eq!(parse_one("f()"), Err(ParserError::ExpectedSemicolon(1)));
    assert_eq!(parse_one("f()\n\ng();"), Err(ParserError::ExpectedSemicolon(3)));
}

#[test]
fn call_arguments_need_separators() {
    assert_eq!(
        parse_one("f(1 2);"),
        Err(unexpected("Error parsing function call arguments", 1))
    );
    assert_eq!(
        parse_one("f(1\n;"),
        Err(unexpected("Error parsing function call arguments", 2))
    );
}

#[test]
fn call_argument_that_is_no_expression() {
    assert_eq!(parse_one("f(;"), Err(unexpected(";", 1)));
    assert_eq!(parse_one("f(,1);"), Err(unexpected(",", 1)));
}

#[test]
fn call_inside_an_expression() {
    assert_eq!(
        parse_one("x = f(1) + g();"),
        Ok(assign("x", binop("+", call("f", vec![num("1")]), call("g", vec![]))))
    );
}

#[test]
fn identifier_reference_inside_an_expression() {
    assert_eq!(parse_one("x = y;"), Ok(assign("x", ident("y"))));
    assert_eq!(parse_one("x = y * z;"), Ok(assign("x", binop("*", ident("y"), ident("z")))));
}

#[test]
fn literal_statements() {
    assert_eq!(parse_one("42;"), Ok(num("42")));
    assert_eq!(parse_one("\"hi\";"), Ok(text("hi")));
    assert_eq!(parse_one("true;"), Ok(ASTNode::BoolNode(true)));
    assert_eq!(parse_one("false;"), Ok(ASTNode::BoolNode(false)));
}

#[test]
fn expression_statement_needs_a_semicolon() {
    assert_eq!(parse_one("1 + 2"), Err(ParserError::ExpectedSemicolon(1)));
    assert_eq!(parse_one("1 + 2\n}"), Err(ParserError::ExpectedSemicolon(2)));
    assert_eq!(parse_one("1 2;"), Err(ParserError::ExpectedSemicolon(1)));
}

#[test]
fn operator_needs_a_right_operand() {
    assert_eq!(parse_one("1 + ;"), Err(unexpected(";", 1)));
    assert_eq!(parse_one("1 *\n);"), Err(unexpected(")", 2)));
    assert_eq!(parse_one("1 and }"), Err(unexpected("}", 1)));
}

#[test]
fn statement_that_starts_with_a_stray_token() {
    assert_eq!(parse_one("}"), Err(unexpected("}", 1)));
    assert_eq!(parse_one("\n\n)"), Err(unexpected(")", 3)));
    assert_eq!(parse_one("else { }"), Err(unexpected("else", 1)));
    assert_eq!(parse_one("pub x;"), Err(unexpected("pub", 1)));
}

#[test]
fn end_of_file_gives_the_eof_node_and_stays() {
    let mut parser = parser_for("");
    assert!(parser.is_at_end());
    assert_eq!(parser.parse_statement(), Ok(ASTNode::Eof));
    assert_eq!(parser.parse_statement(), Ok(ASTNode::Eof));
    assert!(parser.is_at_end());
}

#[test]
fn import_takes_a_string_literal() {
    let mut parser = parser_for("import \"math\" import \"io\"");
    assert_eq!(parser.parse_statement(), Ok(ASTNode::ImportNode("math".to_string())));
    assert!(!parser.is_at_end());
    assert_eq!(parser.parse_statement(), Ok(ASTNode::ImportNode("io".to_string())));
    assert!(parser.is_at_end());
}

#[test]
fn import_of_anything_else_fails() {
    assert_eq!(parse_one("import math"), Err(unexpected("Invalid module string", 1)));
    assert_eq!(parse_one("import\n;"), Err(unexpected("Invalid module string", 2)));
}

#[test]
fn variable_declaration() {
    assert_eq!(parse_one("let x = 1;"), Ok(var("x", num("1"))));
    assert_eq!(
        parse_one("let total = a + b * 2;"),
        Ok(var("total", binop("+", ident("a"), binop("*", ident("b"), num("2")))))
    );
}

#[test]
fn variable_declaration_needs_a_value_and_a_semicolon() {
    assert_eq!(parse_one("let x = ;"), Err(unexpected(";", 1)));
    assert_eq!(parse_one("let x = 1"), Err(ParserError::ExpectedSemicolon(1)));
    assert_eq!(parse_one("let x = 1\nlet"), Err(ParserError::ExpectedSemicolon(2)));
}

#[test]
fn variable_declaration_needs_an_identifier() {
    assert_eq!(parse_one("let 5 = 3;"), Err(expected("identifier", 1)));
    assert_eq!(parse_one("let = 3;"), Err(expected("identifier", 1)));
    assert_eq!(parse_one("let \"x\" = 3;"), Err(expected("identifier", 1)));
    assert_eq!(parse_one("let\nif = 3;"), Err(expected("identifier", 2)));
    assert_eq!(parse_one("let"), Err(expected("identifier", 1)));
}

#[test]
fn variable_declaration_needs_an_equals_sign() {
    assert_eq!(parse_one("let x + 1;"), Err(expected("=", 1)));
    assert_eq!(parse_one("let x 1;"), Err(expected("=", 1)));
    assert_eq!(parse_one("let x == 1;"), Err(expected("=", 1)));
    assert_eq!(parse_one("let x\n;"), Err(expected("=", 2)));
    assert_eq!(parse_one("let x"), Err(expected("=", 1)));
}

#[test]
fn assignment() {
    assert_eq!(parse_one("x = 5;"), Ok(assign("x", num("5"))));
    assert_eq!(parse_one("x = x + 1;"), Ok(assign("x", binop("+", ident("x"), num("1")))));
    assert_eq!(parse_one("x = 5"), Err(ParserError::ExpectedSemicolon(1)));
    assert_eq!(parse_one("x = ;"), Err(unexpected(";", 1)));
}

#[test]
fn comparison_is_no_assignment() {
    assert_eq!(parse_one("x == 5;"), Err(unexpected("==", 1)));
}

#[test]
fn break_statement() {
    assert_eq!(parse_one("break;"), Ok(ASTNode::BreakNode));
    assert_eq!(parse_one("break"), Err(ParserError::ExpectedSemicolon(1)));
    assert_eq!(parse_one("break\n\nx"), Err(ParserError::ExpectedSemicolon(3)));
}

#[test]
fn return_with_and_without_a_value() {
    assert_eq!(parse_one("return;"), Ok(ASTNode::ReturnNode(None)));
    assert_eq!(parse_one("return 1;"), Ok(ASTNode::ReturnNode(Some(Box::new(num("1"))))));
    assert_eq!(
        parse_one("return a + b;"),
        Ok(ASTNode::ReturnNode(Some(Box::new(binop("+", ident("a"), ident("b"))))))
    );
}

#[test]
fn return_needs_a_semicolon() {
    assert_eq!(parse_one("return"), Err(ParserError::ExpectedSemicolon(1)));
    assert_eq!(parse_one("return 1"), Err(ParserError::ExpectedSemicolon(1)));
    assert_eq!(parse_one("return (1);"), Err(ParserError::ExpectedSemicolon(1)));
    assert_eq!(parse_one("return 1\n}"), Err(ParserError::ExpectedSemicolon(2)));
}

#[test]
fn return_whose_value_fails_at_a_semicolon_is_bare() {
    let mut parser = parser_for("return 1 + ; x = 2;");
    assert_eq!(parser.parse_statement(), Ok(ASTNode::ReturnNode(None)));
    assert_eq!(parser.parse_statement(), Ok(assign("x", num("2"))));
    assert!(parser.is_at_end());
}

#[test]
fn loop_statement() {
    assert_eq!(
        parse_one("loop (x < 10) { x = x + 1; }"),
        Ok(ASTNode::LoopNode {
            condition: Box::new(binop("<", ident("x"), num("10"))),
            block: vec![assign("x", binop("+", ident("x"), num("1")))],
        })
    );
    assert_eq!(
        parse_one("loop (true) { }"),
        Ok(ASTNode::LoopNode { condition: Box::new(ASTNode::BoolNode(true)), block: vec![] })
    );
}

#[test]
fn loop_needs_parentheses_and_a_block() {
    assert_eq!(parse_one("loop x < 10 { }"), Err(expected("(", 1)));
    assert_eq!(parse_one("loop (x < 10 { }"), Err(expected(")", 1)));
    assert_eq!(parse_one("loop (x < 10) x = 1;"), Err(expected("{", 1)));
    assert_eq!(parse_one("loop\n(x)\nbreak;"), Err(expected("{", 3)));
    assert_eq!(parse_one("loop () { }"), Err(unexpected(")", 1)));
}

#[test]
fn conditional_with_all_branches() {
    let ast = parse_one("if (true) { break; } elif (false) { break; } else { break; }");
    assert_eq!(
        ast,
        Ok(ASTNode::IfElseNode {
            condition: Box::new(ASTNode::BoolNode(true)),
            then_branch: vec![ASTNode::BreakNode],
            elif_branch: vec![(Box::new(ASTNode::BoolNode(false)), vec![ASTNode::BreakNode])],
            else_branch: Some(vec![ASTNode::BreakNode]),
        })
    );
    match ast {
        Ok(ASTNode::IfElseNode { then_branch, elif_branch, else_branch, .. }) => {
            assert_eq!(then_branch.len(), 1);
            assert_eq!(elif_branch.len(), 1);
            assert!(else_branch.is_some());
        }
        _ => panic!("no conditional"),
    }
}

#[test]
fn conditional_without_elif_and_else() {
    assert_eq!(
        parse_one("if (a == b) { x = 1; y = 2; }"),
        Ok(ASTNode::IfElseNode {
            condition: Box::new(binop("==", ident("a"), ident("b"))),
            then_branch: vec![assign("x", num("1")), assign("y", num("2"))],
            elif_branch: vec![],
            else_branch: None,
        })
    );
}

#[test]
fn absent_else_differs_from_empty_else() {
    let absent = parse_one("if (a) { }");
    let empty = parse_one("if (a) { } else { }");
    assert_eq!(
        absent,
        Ok(ASTNode::IfElseNode {
            condition: Box::new(ident("a")),
            then_branch: vec![],
            elif_branch: vec![],
            else_branch: None,
        })
    );
    assert_eq!(
        empty,
        Ok(ASTNode::IfElseNode {
            condition: Box::new(ident("a")),
            then_branch: vec![],
            elif_branch: vec![],
            else_branch: Some(vec![]),
        })
    );
    assert_ne!(absent, empty);
}

#[test]
fn conditional_with_many_elifs() {
    assert_eq!(
        parse_one("if (a) { } elif (b) { f(); } elif (c) { } elif (d) { g(); }"),
        Ok(ASTNode::IfElseNode {
            condition: Box::new(ident("a")),
            then_branch: vec![],
            elif_branch: vec![
                (Box::new(ident("b")), vec![call("f", vec![])]),
                (Box::new(ident("c")), vec![]),
                (Box::new(ident("d")), vec![call("g", vec![])]),
            ],
            else_branch: None,
        })
    );
}

#[test]
fn conditional_leaves_what_follows_it() {
    let mut parser = parser_for("if (a) { } x = 1;");
    assert!(parser.parse_statement().is_ok());
    assert_eq!(parser.parse_statement(), Ok(assign("x", num("1"))));
}

#[test]
fn conditional_needs_parentheses_and_blocks() {
    assert_eq!(parse_one("if a { }"), Err(expected("(", 1)));
    assert_eq!(parse_one("if (a { }"), Err(expected(")", 1)));
    assert_eq!(parse_one("if (a) break;"), Err(expected("{", 1)));
    assert_eq!(parse_one("if (a) { } elif b { }"), Err(expected("(", 1)));
    assert_eq!(parse_one("if (a) { } elif (b\n{ }"), Err(expected(")", 2)));
    assert_eq!(parse_one("if (a) { } elif (b) ;"), Err(expected("{", 1)));
    assert_eq!(parse_one("if (a) { }\nelse\nbreak;"), Err(expected("{", 3)));
}

#[test]
fn function_definition() {
    assert_eq!(
        parse_one("fn add(a, b) { return a + b; }"),
        Ok(ASTNode::FuncDef {
            name: "add".to_string(),
            arguments: vec![ident("a"), ident("b")],
            block: vec![ASTNode::ReturnNode(Some(Box::new(binop("+", ident("a"), ident("b")))))],
        })
    );
}

#[test]
fn function_definition_without_parameters() {
    assert_eq!(
        parse_one("fn f() { }"),
        Ok(ASTNode::FuncDef { name: "f".to_string(), arguments: vec![], block: vec![] })
    );
}

#[test]
fn function_definition_with_one_parameter() {
    assert_eq!(
        parse_one("fn f(x) { g(x); }"),
        Ok(ASTNode::FuncDef {
            name: "f".to_string(),
            arguments: vec![ident("x")],
            block: vec![call("g", vec![ident("x")])],
        })
    );
}

#[test]
fn parameter_list_may_not_end_in_a_comma() {
    assert_eq!(parse_one("fn f(x,) { }"), Err(unexpected(")", 1)));
    assert_eq!(parse_one("fn f(x, y,\n) { }"), Err(unexpected(")", 2)));
}

#[test]
fn parameters_are_identifiers_only() {
    assert_eq!(parse_one("fn f(1) { }"), Err(unexpected("1", 1)));
    assert_eq!(parse_one("fn f(a, \"b\") { }"), Err(unexpected("b", 1)));
    assert_eq!(parse_one("fn f(a,\n true) { }"), Err(unexpected("true", 2)));
    assert_eq!(parse_one("fn f(,a) { }"), Err(unexpected(",", 1)));
    assert_eq!(parse_one("fn f(a, let) { }"), Err(unexpected("let", 1)));
    assert_eq!(parse_one("fn f((a)) { }"), Err(unexpected("(", 1)));
}

#[test]
fn function_definition_needs_an_identifier_for_its_name() {
    assert_eq!(parse_one("fn 5() { }"), Err(expected("identifier", 1)));
    assert_eq!(parse_one("fn () { }"), Err(expected("identifier", 1)));
    assert_eq!(parse_one("fn\nfn() { }"), Err(expected("identifier", 2)));
    assert_eq!(parse_one("fn"), Err(expected("identifier", 1)));
}

#[test]
fn function_definition_needs_an_opening_parenthesis() {
    assert_eq!(parse_one("fn f x ) { }"), Err(expected("(", 1)));
    assert_eq!(parse_one("fn f { }"), Err(expected("(", 1)));
    assert_eq!(parse_one("fn f\n) { }"), Err(expected("(", 2)));
    assert_eq!(parse_one("fn f"), Err(expected("(", 1)));
}

#[test]
fn parameters_need_separators() {
    assert_eq!(
        parse_one("fn f(a b) { }"),
        Err(unexpected("Error parsing function arguments", 1))
    );
    assert_eq!(
        parse_one("fn f(a\n= 1) { }"),
        Err(unexpected("Error parsing function arguments", 2))
    );
}

#[test]
fn parameter_list_cut_short() {
    let cut = Parser::new(vec![
        tok(TokenType::Func, "fn", 1),
        tok(TokenType::Iden, "f", 1),
        tok(TokenType::Opt, "(", 1),
        tok(TokenType::Iden, "a", 1),
    ])
    .parse_statement();
    assert_eq!(cut, Err(unexpected("Error parsing function arguments", 0)));
    let after_comma = Parser::new(vec![
        tok(TokenType::Func, "fn", 1),
        tok(TokenType::Iden, "f", 1),
        tok(TokenType::Opt, "(", 1),
        tok(TokenType::Iden, "a", 1),
        tok(TokenType::Com, ",", 1),
    ])
    .parse_statement();
    assert_eq!(after_comma, Err(unexpected("Error parsing function arguments", 0)));
}

#[test]
fn function_definition_needs_a_block() {
    assert_eq!(parse_one("fn f() return 1;"), Err(expected("{", 1)));
    assert_eq!(parse_one("fn f()\n;"), Err(expected("{", 2)));
}

#[test]
fn unterminated_block_reports_its_first_line() {
    assert_eq!(parse_one("fn f() { let x = 1;"), Err(ParserError::UnterminatedBlock(1)));
    assert_eq!(
        parse_one("fn f() {\n\n  let x = 1;\n  let y = 2;\n"),
        Err(ParserError::UnterminatedBlock(3))
    );
    assert_eq!(parse_one("loop (a) {\n x = 1;\n y = 2;\n"), Err(ParserError::UnterminatedBlock(2)));
    assert_eq!(parse_one("if (a) { break;"), Err(ParserError::UnterminatedBlock(1)));
}

#[test]
fn block_that_holds_only_the_end_of_file() {
    assert_eq!(parse_one("fn f() {"), Err(ParserError::UnterminatedBlock(1)));
    assert_eq!(parse_one("fn f() {\n\n"), Err(ParserError::UnterminatedBlock(3)));
}

#[test]
fn failure_inside_a_block_leaves_it_unterminated() {
    assert_eq!(parse_one("fn f() { x = ; }"), Err(ParserError::UnterminatedBlock(1)));
    assert_eq!(
        parse_one("fn f() {\n  x = 1;\n  y + 2;\n}"),
        Err(ParserError::UnterminatedBlock(2))
    );
    assert_eq!(parse_one("loop (a) { break }"), Err(ParserError::UnterminatedBlock(1)));
}

#[test]
fn failure_inside_an_inner_block_reports_the_outer_block() {
    assert_eq!(
        parse_one("fn f() {\n  if (a) {\n    x = ;\n  }\n}"),
        Err(ParserError::UnterminatedBlock(2))
    );
    assert_eq!(
        parse_one("fn f() {\n  x = 1;\n  if (a) {\n    y = 2;\n"),
        Err(ParserError::UnterminatedBlock(2))
    );
}

#[test]
fn blocks_nest() {
    assert_eq!(
        parse_one("fn f(n) { loop (n > 0) { if (n == 1) { break; } n = n - 1; } return n; }"),
        Ok(ASTNode::FuncDef {
            name: "f".to_string(),
            arguments: vec![ident("n")],
            block: vec![
                ASTNode::LoopNode {
                    condition: Box::new(binop(">", ident("n"), num("0"))),
                    block: vec![
                        ASTNode::IfElseNode {
                            condition: Box::new(binop("==", ident("n"), num("1"))),
                            then_branch: vec![ASTNode::BreakNode],
                            elif_branch: vec![],
                            else_branch: None,
                        },
                        assign("n", binop("-", ident("n"), num("1"))),
                    ],
                },
                ASTNode::ReturnNode(Some(Box::new(ident("n")))),
            ],
        })
    );
}

#[test]
fn tokens_that_end_without_eof_are_an_unexpected_end() {
    let end = unexpected("Unexpected end of input", 0);
    assert_eq!(Parser::new(vec![]).parse_statement(), Err(end));
    let cut = |tokens: Vec<Token>| Parser::new(tokens).parse_statement();
    assert_eq!(
        cut(vec![tok(TokenType::Num, "1", 1), tok(TokenType::Add, "+", 1)]),
        Err(unexpected("Unexpected end of input", 0))
    );
    assert_eq!(cut(vec![tok(TokenType::Num, "1", 1)]), Err(unexpected("Unexpected end of input", 0)));
    assert_eq!(cut(vec![tok(TokenType::Iden, "x", 1)]), Err(unexpected("Unexpected end of input", 0)));
    assert_eq!(cut(vec![tok(TokenType::Let, "let", 1)]), Err(unexpected("Unexpected end of input", 0)));
    assert_eq!(cut(vec![tok(TokenType::Break, "break", 1)]), Err(unexpected("Unexpected end of input", 0)));
    assert_eq!(cut(vec![tok(TokenType::Return, "return", 1)]), Err(unexpected("Unexpected end of input", 0)));
    assert_eq!(cut(vec![tok(TokenType::Import, "import", 1)]), Err(unexpected("Unexpected end of input", 0)));
    assert_eq!(cut(vec![tok(TokenType::If, "if", 1)]), Err(unexpected("Unexpected end of input", 0)));
    assert_eq!(
        cut(vec![tok(TokenType::Func, "fn", 1), tok(TokenType::Iden, "f", 1), tok(TokenType::Opt, "(", 1)]),
        Err(unexpected("Unexpected end of input", 0))
    );
    assert_eq!(
        cut(vec![
            tok(TokenType::Loop, "loop", 1),
            tok(TokenType::Opt, "(", 1),
            tok(TokenType::Iden, "a", 1),
            tok(TokenType::Cpt, ")", 1),
            tok(TokenType::Ocl, "{", 1),
        ]),
        Err(unexpected("Unexpected end of input", 0))
    );
}

#[test]
fn block_cut_short_after_its_first_token_is_unterminated() {
    let result = Parser::new(vec![
        tok(TokenType::Loop, "loop", 1),
        tok(TokenType::Opt, "(", 1),
        tok(TokenType::Iden, "a", 1),
        tok(TokenType::Cpt, ")", 1),
        tok(TokenType::Ocl, "{", 2),
        tok(TokenType::Break, "break", 3),
        tok(TokenType::Scln, ";", 3),
    ])
    .parse_statement();
    assert_eq!(result, Err(ParserError::UnterminatedBlock(3)));
}

#[test]
fn lexical_failure_leaves_the_parser_short_of_input() {
    let mut parser = parser_for("x = 1 + @;");
    assert_eq!(parser.parse_statement(), Err(unexpected("Unexpected end of input", 0)));
    let mut empty = parser_for("1.2.3;");
    assert!(empty.is_at_end());
    assert_eq!(empty.parse_statement(), Err(unexpected("Unexpected end of input", 0)));
}

#[test]
fn is_at_end_tells_when_to_stop() {
    let mut parser = parser_for("x = 1; y = 2;");
    assert!(!parser.is_at_end());
    assert!(parser.parse_statement().is_ok());
    assert!(!parser.is_at_end());
    assert!(parser.parse_statement().is_ok());
    assert!(parser.is_at_end());
    assert!(Parser::new(vec![]).is_at_end());
}

#[test]
fn operator_text_comes_from_the_token() {
    let mut parser = Parser::new(vec![
        tok(TokenType::Num, "1", 1),
        tok(TokenType::Add, "plus", 1),
        tok(TokenType::Num, "2", 1),
        tok(TokenType::Scln, ";", 1),
        tok(TokenType::Eof, "", 1),
    ]);
    assert_eq!(parser.parse_statement(), Ok(binop("plus", num("1"), num("2"))));
}

#[test]
fn program_of_several_statements() {
    let mut parser = parser_for("import \"io\"\nlet a = 1;\nfn f() { }\nf();\n");
    let (statements, failure) = parser.parse_program();
    assert_eq!(failure, None);
    assert_eq!(
        statements,
        vec![
            ASTNode::ImportNode("io".to_string()),
            var("a", num("1")),
            ASTNode::FuncDef { name: "f".to_string(), arguments: vec![], block: vec![] },
            call("f", vec![]),
        ]
    );
    assert!(parser.is_at_end());
}

#[test]
fn empty_program() {
    let (statements, failure) = parser_for("# nothing\n").parse_program();
    assert_eq!(statements, vec![]);
    assert_eq!(failure, None);
}

#[test]
fn program_stops_at_the_first_failure() {
    let mut parser = parser_for("let a = 1;\nb;\nlet c = 3;");
    let (statements, failure) = parser.parse_program();
    assert_eq!(statements, vec![var("a", num("1"))]);
    assert_eq!(failure, Some(unexpected(";", 2)));
    assert!(!parser.is_at_end());
}

#[test]
fn program_cut_short_by_a_lexical_failure() {
    let (statements, failure) = parser_for("let a = 1; let b = $;").parse_program();
    assert_eq!(statements, vec![var("a", num("1"))]);
    assert_eq!(failure, Some(unexpected("Unexpected end of input", 0)));
}

#[test]
fn program_agrees_with_repeated_statements() {
    let src = "let a = 1; a = a + 1; if (a) { f(a); } loop (a) { break; } return a;";
    let mut one = parser_for(src);
    let mut expected_statements = Vec::new();
    while !one.is_at_end() {
        expected_statements.push(one.parse_statement().unwrap());
    }
    let (statements, failure) = parser_for(src).parse_program();
    assert_eq!(failure, None);
    assert_eq!(statements.len(), 5);
    assert_eq!(statements, expected_statements);
}

#[test]
fn every_failure_carries_its_line() {
    assert_eq!(unexpected("x", 7).line(), 7);
    assert_eq!(expected("(", 8).line(), 8);
    assert_eq!(ParserError::UnterminatedBlock(9).line(), 9);
    assert_eq!(ParserError::ExpectedSemicolon(10).line(), 10);
    assert_eq!(parse_one("\n\nx = 1").unwrap_err().line(), 3);
}

#[test]
fn parsing_is_deterministic() {
    let src = "fn f(a, b) { if (a < b) { return a; } else { return b; } }";
    assert_eq!(parse_one(src), parse_one(src));
}
