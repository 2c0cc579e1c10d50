use langfront::layout::{layout, Label, Line};
use langfront::lexer::tokenize;
use langfront::parser::{ASTNode, Parser};

fn parse(src: &str) -> ASTNode {
    Parser::new(tokenize(src)).parse_statement().unwrap()
}

fn head(node: &ASTNode) -> String {
    match node {
        ASTNode::Eof => "Eof".to_string(),
        ASTNode::Number(lexeme) => format!("Number({})", lexeme),
        ASTNode::Identifier(name) => format!("Identifier({})", name),
        ASTNode::ImportNode(name) => format!("Import({})", name),
        ASTNode::StrLiteral(text) => format!("StrLiteral({})", text),
        ASTNode::BreakNode => "Break".to_string(),
        ASTNode::BoolNode(b) => format!("Bool({})", b),
        ASTNode::ReturnNode(_) => "Return".to_string(),
        ASTNode::BinOpNode { op, .. } => format!("BinOp({})", op),
        ASTNode::VarDecNode { name, .. } => format!("VarDec({})", name),
        ASTNode::AssignNode { name, .. } => format!("Assign({})", name),
        ASTNode::IfElseNode { .. } => "If".to_string(),
        ASTNode::LoopNode { .. } => "Loop".to_string(),
        ASTNode::FuncCall { name, .. } => format!("FuncCall({})", name),
        ASTNode::FuncDef { name, .. } => format!("FuncDef({})", name),
    }
}

fn show(line: &Line) -> String {
    let connector = if line.is_last { "└── " } else { "├── " };
    let label = match &line.label {
        Label::Node(node) => head(node),
        Label::Then => "Then".to_string(),
        Label::Elif => "Elif".to_string(),
        Label::Else => "Else".to_string(),
        Label::Args(arguments) => {
            let names: Vec<String> = arguments.iter().map(head).collect();
            format!("Args[{}]", names.join(","))
        }
    };
    format!("{}{}{}", line.prefix, connector, label)
}

fn drawing(src: &str) -> Vec<String> {
    let node = parse(src);
    layout(&node, "", true).iter().map(show).collect()
}

#[test]
fn leaf_is_one_line() {
    assert_eq!(drawing("42;"), vec!["└── Number(42)"]);
    assert_eq!(drawing("break;"), vec!["└── Break"]);
    assert_eq!(drawing("import \"m\""), vec!["└── Import(m)"]);
    assert_eq!(drawing("return;"), vec!["└── Return"]);
}

#[test]
fn layout_keeps_the_given_prefix_and_mark() {
    let node = parse("x = 1;");
    let lines: Vec<String> = layout(&node, ">> ", false).iter().map(show).collect();
    assert_eq!(lines, vec![">> ├── Assign(x)", ">> │   └── Number(1)"]);
    let lines: Vec<String> = layout(&node, ">> ", true).iter().map(show).collect();
    assert_eq!(lines, vec![">> └── Assign(x)", ">>     └── Number(1)"]);
}

#[test]
fn binary_node_draws_left_then_right() {
    assert_eq!(
        drawing("1 + 2 * 3;"),
        vec![
            "└── BinOp(+)",
            "    ├── Number(1)",
            "    └── BinOp(*)",
            "        ├── Number(2)",
            "        └── Number(3)",
        ]
    );
    assert_eq!(
        drawing("8 - 3 - 2;"),
        vec![
            "└── BinOp(-)",
            "    ├── BinOp(-)",
            "    │   ├── Number(8)",
            "    │   └── Number(3)",
            "    └── Number(2)",
        ]
    );
}

#[test]
fn declaration_return_and_call() {
    assert_eq!(drawing("let x = y;"), vec!["└── VarDec(x)", "    └── Identifier(y)"]);
    assert_eq!(drawing("return true;"), vec!["└── Return", "    └── Bool(true)"]);
    assert_eq!(drawing("f();"), vec!["└── FuncCall(f)"]);
    assert_eq!(
        drawing("f(1, \"s\", g(x));"),
        vec![
            "└── FuncCall(f)",
            "    ├── Number(1)",
            "    ├── StrLiteral(s)",
            "    └── FuncCall(g)",
            "        └── Identifier(x)",
        ]
    );
}

#[test]
fn loop_draws_condition_then_statements() {
    assert_eq!(
        drawing("loop (a < b) { a = b; break; }"),
        vec![
            "└── Loop",
            "    ├── BinOp(<)",
            "    │   ├── Identifier(a)",
            "    │   └── Identifier(b)",
            "    ├── Assign(a)",
            "    │   └── Identifier(b)",
            "    └── Break",
        ]
    );
    assert_eq!(drawing("loop (a) { }"), vec!["└── Loop", "    ├── Identifier(a)"]);
}

#[test]
fn function_definition_draws_parameters_then_statements() {
    assert_eq!(
        drawing("fn add(a, b) { return a + b; }"),
        vec![
            "└── FuncDef(add)",
            "    ├── Args[Identifier(a),Identifier(b)]",
            "    └── Return",
            "        └── BinOp(+)",
            "            ├── Identifier(a)",
            "            └── Identifier(b)",
        ]
    );
    assert_eq!(drawing("fn f() { }"), vec!["└── FuncDef(f)", "    ├── Args[]"]);
}

#[test]
fn conditional_without_other_branches_closes_its_first_block() {
    assert_eq!(
        drawing("if (a) { x = 1; break; }"),
        vec![
            "└── If",
            "    ├── Identifier(a)",
            "    ├── Then",
            "    │   ├── Assign(x)",
            "    │   │   └── Number(1)",
            "    │   └── Break",
        ]
    );
}

#[test]
fn conditional_with_all_branches_is_drawn_in_order() {
    assert_eq!(
        drawing("if (a) { break; } elif (b) { x = 1; break; } elif (c) { } else { f(); g(); }"),
        vec![
            "└── If",
            "    ├── Identifier(a)",
            "    ├── Then",
            "    │   ├── Break",
            "    ├── Elif",
            "    │   ├── Identifier(b)",
            "    │   │   ├── Assign(x)",
            "    │   │   │   └── Number(1)",
            "    │   │   └── Break",
            "    ├── Elif",
            "    │   ├── Identifier(c)",
            "    └── Else",
            "        ├── FuncCall(f)",
            "        └── FuncCall(g)",
        ]
    );
}

#[test]
fn conditional_with_else_only() {
    assert_eq!(
        drawing("if (a) { break; } else { }"),
        vec!["└── If", "    ├── Identifier(a)", "    ├── Then", "    │   ├── Break", "    └── Else"]
    );
}

#[test]
fn nested_node_indents_under_a_continuing_line() {
    let node = parse("fn f() { if (a) { b = 1; } c(); }");
    let lines: Vec<String> = layout(&node, "", false).iter().map(show).collect();
    assert_eq!(
        lines,
        vec![
            "├── FuncDef(f)",
            "│   ├── Args[]",
            "│   ├── If",
            "│   │   ├── Identifier(a)",
            "│   │   ├── Then",
            "│   │   │   └── Assign(b)",
            "│   │   │       └── Number(1)",
            "│   └── FuncCall(c)",
        ]
    );
}

#[test]
fn layout_labels_point_into_the_tree() {
    let node = parse("x = 1;");
    let lines = layout(&node, "", true);
    assert_eq!(lines.len(), 2);
    match &lines[0].label {
        Label::Node(head) => assert!(std::ptr::eq(*head, &node)),
        _ => panic!("first line is no node"),
    }
    match &lines[1].label {
        Label::Node(ASTNode::Number(lexeme)) => assert_eq!(lexeme, "1"),
        _ => panic!("second line is no number"),
    }
}
