use langfront::lexer::{tokenize, Token, TokenType};
use langfront::parser::{ASTNode, Parser};
use langfront::canonical::canonical_source;
use langfront::serializer::{program_to_source, program_to_tokens, to_tokens};
use langfront::source::to_source;

fn parse(src: &str) -> ASTNode {
    Parser::new(tokenize(src)).parse_statement().unwrap()
}

fn spell(tokens: &[Token]) -> String {
    let words: Vec<String> = tokens
        .iter()
        .map(|t| if t.ttype == TokenType::Str { format!("{:?}", t.value) } else { t.value.clone() })
        .collect();
    words.join(" ")
}

fn canonical(src: &str) -> String {
    spell(&to_tokens(&parse(src)))
}

fn reparse(node: &ASTNode) -> ASTNode {
    let mut tokens = to_tokens(node);
    tokens.push(Token { ttype: TokenType::Eof, value: String::new(), line_num: 1 });
    let mut parser = Parser::new(tokens);
    let again = parser.parse_statement().unwrap();
    assert!(parser.is_at_end());
    again
}

fn assert_round_trip(src: &str) {
    let node = parse(src);
    assert_eq!(reparse(&node), node, "{}", src);
}

#[test]
fn canonical_tokens_of_expressions() {
    assert_eq!(canonical("1 + 2 * 3;"), "1 + 2 * 3 ;");
    assert_eq!(canonical("1 + (2 * 3);"), "1 + 2 * 3 ;");
    assert_eq!(canonical("1 * (2 + 3);"), "1 * ( 2 + 3 ) ;");
    assert_eq!(canonical("8 - 3 - 2;"), "8 - 3 - 2 ;");
    assert_eq!(canonical("8 - (3 - 2);"), "8 - ( 3 - 2 ) ;");
    assert_eq!(canonical("1 + (2 < 3) * 4;"), "1 + ( 2 < 3 ) * 4 ;");
    assert_eq!(canonical("x = a and (b or c) == d;"), "x = a and ( b or c ) == d ;");
    assert_eq!(canonical("true and (1 < 2);"), "true and 1 < 2 ;");
}

#[test]
fn canonical_tokens_of_statements() {
    assert_eq!(canonical("import \"m\""), "import \"m\"");
    assert_eq!(canonical("let x = 1;"), "let x = 1 ;");
    assert_eq!(canonical("x = f(1, g(), \"s\");"), "x = f ( 1 , g ( ) , \"s\" ) ;");
    assert_eq!(canonical("f();"), "f ( ) ;");
    assert_eq!(canonical("break;"), "break ;");
    assert_eq!(canonical("return;"), "return ;");
    assert_eq!(canonical("return 1 + ;"), "return ;");
    assert_eq!(canonical("return a;"), "return a ;");
    assert_eq!(canonical("fn f() { }"), "fn f ( ) { }");
    assert_eq!(canonical("fn f(a, b) { return a; }"), "fn f ( a , b ) { return a ; }");
    assert_eq!(canonical("loop (a) { break; }"), "loop ( a ) { break ; }");
    assert_eq!(
        canonical("if (a) { } elif (b) { f(); } else { x = 1; }"),
        "if ( a ) { } elif ( b ) { f ( ) ; } else { x = 1 ; }"
    );
}

#[test]
fn canonical_tokens_stand_on_line_one() {
    let tokens = to_tokens(&parse("\n\nx =\n1 +\n2;"));
    assert_eq!(tokens.len(), 6);
    assert!(tokens.iter().all(|t| t.line_num == 1));
    assert_eq!(tokens[0], Token { ttype: TokenType::Iden, value: "x".to_string(), line_num: 1 });
    assert_eq!(tokens[3], Token { ttype: TokenType::Add, value: "+".to_string(), line_num: 1 });
}

#[test]
fn trees_that_are_no_statements_have_no_tokens() {
    assert_eq!(to_tokens(&ASTNode::Eof), vec![]);
    assert_eq!(to_tokens(&ASTNode::Identifier("x".to_string())), vec![]);
}

#[test]
fn expressions_come_back() {
    for src in [
        "1;",
        "\"text\";",
        "true;",
        "1 + 2 * 3;",
        "1 * 2 + 3;",
        "8 - 3 - 2;",
        "8 - (3 - 2);",
        "1 * (2 + 3) * 4;",
        "1 + (2 * 3);",
        "1 - (2 - (3 - (4 - 5)));",
        "1 < 2 == (3 < 4);",
        "true and false or true and (false or true);",
        "1 + f(2, 3, g(4 * (5 + 6))) % 7;",
        "1 * (a and b) + (c or (d == e)) / 2;",
        "2 >= (1 <= 0) > 3;",
    ] {
        assert_round_trip(src);
    }
}

#[test]
fn statements_come_back() {
    for src in [
        "import \"module\"",
        "let x = 1;",
        "let total = a + b * (c - d);",
        "x = y;",
        "x = f(x, 1);",
        "f();",
        "f(a, b + 1, g(h()));",
        "break;",
        "return;",
        "return x * (y + 1);",
        "return 1 + ;",
        "fn f() { }",
        "fn f(a) { return a; }",
        "fn add(a, b) { let c = a + b; return c; }",
        "loop (i < 10) { i = i + 1; if (i == 5) { break; } }",
        "if (a) { }",
        "if (a) { } else { }",
        "if (a) { x = 1; } elif (b) { x = 2; } elif (c) { } else { x = 3; }",
        "if (a) { if (b) { } else { } } else { if (c) { } }",
        "fn outer() { fn inner(x) { return x; } loop (true) { inner(1); break; } }",
        "fn f(a, b, c) { g(a, b, c); }",
    ] {
        assert_round_trip(src);
    }
}

#[test]
fn end_of_file_comes_back() {
    assert_eq!(reparse(&ASTNode::Eof), ASTNode::Eof);
}

#[test]
fn serializing_is_idempotent() {
    for src in ["1 + (2 * 3) - (4 - 5);", "if (a) { f(1); } elif (b) { } else { return; }"] {
        let first = parse(src);
        let second = reparse(&first);
        assert_eq!(to_tokens(&first), to_tokens(&second));
    }
}

#[test]
fn programs_come_back() {
    let src = "import \"io\"\nlet n = 10;\nfn fact(k) {\n  if (k <= 1) { return 1; }\n  return k * fact(k - 1);\n}\nprint(fact(n), \"done\");\n";
    let (statements, failure) = Parser::new(tokenize(src)).parse_program();
    assert_eq!(failure, None);
    assert_eq!(statements.len(), 4);
    let tokens = program_to_tokens(&statements);
    assert_eq!(tokens[tokens.len() - 1].ttype, TokenType::Eof);
    assert_eq!(tokens.iter().filter(|t| t.ttype == TokenType::Eof).count(), 1);
    let mut parser = Parser::new(tokens);
    let (again, failure) = parser.parse_program();
    assert_eq!(failure, None);
    assert_eq!(again, statements);
    assert!(parser.is_at_end());
}

#[test]
fn empty_program_comes_back() {
    let tokens = program_to_tokens(&vec![]);
    assert_eq!(tokens, vec![Token { ttype: TokenType::Eof, value: String::new(), line_num: 1 }]);
    let (again, failure) = Parser::new(tokens).parse_program();
    assert_eq!(again, vec![]);
    assert_eq!(failure, None);
}

#[test]
fn canonical_text_lexes_to_the_canonical_tokens() {
    for src in [
        "x = a and (b or c) == d;",
        "fn f(a, b) { if (a < b) { return \"a\\n\"; } else { return 1.5 * (a + b); } }",
    ] {
        let tokens = to_tokens(&parse(src));
        let text = spell(&tokens);
        let mut lexed = tokenize(&text);
        assert_eq!(lexed.pop().map(|t| t.ttype), Some(TokenType::Eof));
        assert_eq!(lexed, tokens);
    }
}

#[test]
fn tree_with_an_unknown_operator_gets_a_token_of_no_operator() {
    let node = ASTNode::BinOpNode {
        op: "plus".to_string(),
        left: Box::new(ASTNode::Number("1".to_string())),
        right: Box::new(ASTNode::Number("2".to_string())),
    };
    let tokens = to_tokens(&node);
    assert_eq!(spell(&tokens), "1 plus ( 2 ) ;");
    assert_eq!(tokens[1], Token { ttype: TokenType::Eof, value: "plus".to_string(), line_num: 1 });
}

fn program(src: &str) -> Vec<ASTNode> {
    let (statements, failure) = Parser::new(tokenize(src)).parse_program();
    assert_eq!(failure, None);
    statements
}

#[test]
fn text_of_tokens_puts_a_space_behind_each() {
    assert_eq!(to_source(&tokenize("x=1;")), "x = 1 ;  ");
    assert_eq!(to_source(&tokenize("")), " ");
    assert_eq!(to_source(&vec![]), "");
    assert_eq!(to_source(&tokenize("f(a,b)<=2.5")), "f ( a , b ) <= 2.5  ");
}

#[test]
fn text_of_a_string_literal_is_escaped() {
    let tokens = tokenize("\"a\\\"b\\nc\\\\d\ne\"");
    assert_eq!(tokens[0].value, "a\"b\nc\\d\ne");
    assert_eq!(to_source(&tokens), "\"a\\\"b\\nc\\\\d\\ne\"  ");
    assert_eq!(to_source(&tokenize("\"\"")), "\"\"  ");
}

#[test]
fn text_of_lexed_tokens_on_one_line_lexes_back() {
    for src in [
        "",
        "let x = 1;",
        "fn f(a, b) { if (a <= b) { return \"a\\n\\\"q\\\"\"; } else { return 1.5 * (a + b); } }",
        "loop (true and false or x == 1) { break; } import \"m\" pub elif else",
        "1. 2.5 007 a_b _ x1 + - * / % ( ) { } , ; = == < <= > >=",
    ] {
        let tokens = tokenize(src);
        assert_eq!(tokenize(&to_source(&tokens)), tokens, "{}", src);
    }
}

#[test]
fn program_source_is_the_text_of_the_canonical_tokens() {
    let statements = program("let a = 1 + (2 * 3);\nf(a,\n  \"s\");");
    assert_eq!(program_to_source(&statements), "let a = 1 + 2 * 3 ; f ( a , \"s\" ) ;  ");
    assert_eq!(program_to_source(&statements), to_source(&program_to_tokens(&statements)));
    assert_eq!(program_to_source(&vec![]), " ");
}

#[test]
fn programs_come_back_from_their_source_text() {
    for src in [
        "",
        "# only a comment\n",
        "import \"io\"\nlet n = 10;\nfn fact(k) {\n  if (k <= 1) { return 1; }\n  return k * fact(k - 1);\n}\nprint(fact(n), \"done\\n\");\n",
        "x = 1 - (2 - 3) * (4 + 5) / 6 % 7;\nloop (x > 0 and (y or z)) { x = x - 1; break; }",
        "if (a) { } elif (b == \"q\\\"\") { f(); } elif (c) { return; } else { 1.50; \"s\"; true; }",
        "return 1 + ; x = 2;",
    ] {
        let statements = program(src);
        let text = program_to_source(&statements);
        assert_eq!(program(&text), statements, "{}", src);
        assert_eq!(program_to_source(&program(&text)), text);
    }
}

#[test]
fn canonical_form_of_a_source_text() {
    assert_eq!(canonical_source(""), Some(" ".to_string()));
    assert_eq!(
        canonical_source("let a=1+(2*3);\n# c\nf ( a );"),
        Some("let a = 1 + 2 * 3 ; f ( a ) ;  ".to_string())
    );
    let src = "fn f(a, b) {\n  if (a < b) { return a; }\n  return b - (a - 1);\n}\n";
    let text = canonical_source(src).unwrap();
    assert_eq!(text, "fn f ( a , b ) { if ( a < b ) { return a ; } return b - ( a - 1 ) ; }  ");
    assert_eq!(program(&text), program(src));
    assert_eq!(canonical_source(&text), Some(text.clone()));
}

#[test]
fn source_that_fails_has_no_canonical_form() {
    assert_eq!(canonical_source("x = 1; @"), None);
    assert_eq!(canonical_source("x = 1.2.3;"), None);
    assert_eq!(canonical_source("\"open"), None);
    assert_eq!(canonical_source("x = ;"), None);
    assert_eq!(canonical_source("let x + 1;"), None);
    assert_eq!(canonical_source("fn f(1) { }"), None);
    assert_eq!(canonical_source("f(1,);"), None);
    assert_eq!(canonical_source("fn f() { let x = 1;"), None);
}
