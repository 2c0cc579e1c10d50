//! The layout of a syntax tree drawn as an indented tree: which lines there
//! are, in which order, and how each is indented. What text stands for a node
//! is left to whoever prints the lines.

use crate::grammar::Ast;
use crate::parser::{ast_views, clause_views, ASTNode};
use vstd::prelude::*;
use vstd::string::StringExecFns;

verus! {

/// What a line of the drawing shows.
pub enum Label<'a> {
    /// The head of a node.
    Node(&'a ASTNode),
    /// The title above the statements of a conditional's first block.
    Then,
    /// The title above an `elif` clause.
    Elif,
    /// The title above the statements of an `else` block.
    Else,
    /// The parameters of a function definition.
    Args(&'a Vec<ASTNode>),
}

/// One line of the drawing: the indentation, whether the line is the last of
/// its parent (which decides the connector drawn before the label), and the
/// label.
pub struct Line<'a> {
    pub prefix: String,
    pub is_last: bool,
    pub label: Label<'a>,
}

/// The mathematical value of a [`Label`].
pub enum LabelView {
    Node(Ast),
    Then,
    Elif,
    Else,
    Args(Seq<Ast>),
}

/// The mathematical value of a [`Line`].
pub struct LineView {
    pub prefix: Seq<char>,
    pub is_last: bool,
    pub label: LabelView,
}

impl<'a> View for Label<'a> {
    type V = LabelView;

    open spec fn view(&self) -> LabelView {
        match *self {
            Label::Node(node) => LabelView::Node(node@),
            Label::Then => LabelView::Then,
            Label::Elif => LabelView::Elif,
            Label::Else => LabelView::Else,
            Label::Args(arguments) => LabelView::Args(ast_views(*arguments)),
        }
    }
}

impl<'a> View for Line<'a> {
    type V = LineView;

    open spec fn view(&self) -> LineView {
        LineView { prefix: self.prefix@, is_last: self.is_last, label: self.label@ }
    }
}

/// The views of a sequence of lines, in order.
pub open spec fn line_views(lines: Seq<Line>) -> Seq<LineView> {
    lines.map_values(|line: Line| line@)
}

/// The indentation under a line that continues: a bar and three spaces.
pub open spec fn bar() -> Seq<char> {
    "│   "@
}

/// The indentation under a line that was the last of its parent: four spaces.
pub open spec fn gap() -> Seq<char> {
    "    "@
}

/// The indentation of the children of a line.
pub open spec fn inner_prefix(prefix: Seq<char>, is_last: bool) -> Seq<char> {
    prefix + if is_last {
        gap()
    } else {
        bar()
    }
}

/// A line that shows a title.
pub open spec fn title(prefix: Seq<char>, is_last: bool, label: LabelView) -> Seq<LineView> {
    seq![LineView { prefix, is_last, label }]
}

/// The lines of the drawing of `node`: its head, then its children one level
/// deeper. Of the children of a node the last is marked as last; under a
/// conditional, the last statement of the first block is marked so only where
/// no `elif` clause and no `else` block follow.
pub open spec fn spec_layout(node: Ast, prefix: Seq<char>, is_last: bool) -> Seq<LineView>
    decreases node, 0nat,
{
    let head = title(prefix, is_last, LabelView::Node(node));
    let inner = inner_prefix(prefix, is_last);
    match node {
        Ast::ReturnNode(Some(value)) => head + spec_layout(*value, inner, true),
        Ast::BinOpNode { op, left, right } => head + spec_layout(*left, inner, false)
            + spec_layout(*right, inner, true),
        Ast::VarDecNode { name, value } => head + spec_layout(*value, inner, true),
        Ast::AssignNode { name, value } => head + spec_layout(*value, inner, true),
        Ast::IfElseNode { condition, then_branch, elif_branch, else_branch } => head + spec_layout(
            *condition,
            inner,
            false,
        ) + title(inner, false, LabelView::Then) + list_layout(
            then_branch,
            inner + bar(),
            elif_branch.len() == 0 && else_branch is None,
            then_branch.len(),
        ) + clauses_layout(elif_branch, inner, elif_branch.len()) + match else_branch {
            Some(block) => title(inner, true, LabelView::Else) + list_layout(
                block,
                inner + gap(),
                true,
                block.len(),
            ),
            None => Seq::empty(),
        },
        Ast::LoopNode { condition, block } => head + spec_layout(*condition, inner, false)
            + list_layout(block, inner, true, block.len()),
        Ast::FuncCall { name, arguments } => head + list_layout(
            arguments,
            inner,
            true,
            arguments.len(),
        ),
        Ast::FuncDef { name, arguments, block } => head + title(
            inner,
            false,
            LabelView::Args(arguments),
        ) + list_layout(block, inner, true, block.len()),
        _ => head,
    }
}

/// The lines of the first `n` nodes of a list, all with the same indentation.
/// Where `closes`, the last node of the list is marked as last.
pub open spec fn list_layout(nodes: Seq<Ast>, prefix: Seq<char>, closes: bool, n: nat) -> Seq<
    LineView,
>
    decreases nodes, n,
{
    if 0 < n <= nodes.len() {
        list_layout(nodes, prefix, closes, (n - 1) as nat) + spec_layout(
            nodes[n - 1],
            prefix,
            closes && n == nodes.len(),
        )
    } else {
        Seq::empty()
    }
}

/// The lines of the first `n` `elif` clauses of a conditional: for each its
/// title, its condition, and its statements one level deeper.
pub open spec fn clauses_layout(clauses: Seq<(Ast, Seq<Ast>)>, prefix: Seq<char>, n: nat) -> Seq<
    LineView,
>
    decreases clauses, n,
{
    if 0 < n <= clauses.len() {
        clauses_layout(clauses, prefix, (n - 1) as nat) + title(prefix, false, LabelView::Elif)
            + spec_layout(clauses[n - 1].0, prefix + bar(), false) + list_layout(
            clauses[n - 1].1,
            prefix + bar() + bar(),
            true,
            clauses[n - 1].1.len(),
        )
    } else {
        Seq::empty()
    }
}

/// The indentation of the children of a line with indentation `prefix`.
fn indent(prefix: &str, is_last: bool) -> (inner: String)
    ensures
        inner@ == inner_prefix(prefix@, is_last),
{
    let start = String::from_str(prefix);
    if is_last {
        start.concat("    ")
    } else {
        start.concat("│   ")
    }
}

/// Appends one line to `lines`.
fn push_line<'a>(lines: &mut Vec<Line<'a>>, prefix: &str, is_last: bool, label: Label<'a>)
    ensures
        line_views(final(lines)@) == line_views(old(lines)@) + title(prefix@, is_last, label@),
{
    let ghost before = line_views(lines@);
    let line = Line { prefix: String::from_str(prefix), is_last, label };
    lines.push(line);
    assert(line_views(lines@) =~= before + title(prefix@, is_last, label@));
}

/// Appends the lines of a list of nodes to `lines`.
fn layout_list<'a>(
    nodes: &'a Vec<ASTNode>,
    prefix: &str,
    closes: bool,
    lines: &mut Vec<Line<'a>>,
)
    ensures
        line_views(final(lines)@) == line_views(old(lines)@) + list_layout(
            ast_views(*nodes),
            prefix@,
            closes,
            nodes.len() as nat,
        ),
    decreases nodes, 1nat,
{
    let ghost before = line_views(lines@);
    let mut i: usize = 0;
    while i < nodes.len()
        invariant
            i <= nodes.len(),
            line_views(lines@) == before + list_layout(ast_views(*nodes), prefix@, closes, i as nat),
        decreases nodes.len() - i,
    {
        let ghost so_far = list_layout(ast_views(*nodes), prefix@, closes, i as nat);
        layout_into(&nodes[i], prefix, closes && i + 1 == nodes.len(), lines);
        i += 1;
        assert(line_views(lines@) =~= before + list_layout(
            ast_views(*nodes),
            prefix@,
            closes,
            i as nat,
        ));
    }
}

/// Appends the lines of the `elif` clauses of a conditional to `lines`.
fn layout_clauses<'a>(
    clauses: &'a Vec<(Box<ASTNode>, Vec<ASTNode>)>,
    prefix: &str,
    lines: &mut Vec<Line<'a>>,
)
    ensures
        line_views(final(lines)@) == line_views(old(lines)@) + clauses_layout(
            clause_views(*clauses),
            prefix@,
            clauses.len() as nat,
        ),
    decreases clauses, 1nat,
{
    let ghost before = line_views(lines@);
    let deeper = indent(prefix, false);
    let deepest = indent(deeper.as_str(), false);
    let mut i: usize = 0;
    while i < clauses.len()
        invariant
            i <= clauses.len(),
            deeper@ == prefix@ + bar(),
            deepest@ == prefix@ + bar() + bar(),
            line_views(lines@) == before + clauses_layout(
                clause_views(*clauses),
                prefix@,
                i as nat,
            ),
        decreases clauses.len() - i,
    {
        push_line(lines, prefix, false, Label::Elif);
        layout_into(&clauses[i].0, deeper.as_str(), false, lines);
        layout_list(&clauses[i].1, deepest.as_str(), true, lines);
        i += 1;
        assert(line_views(lines@) =~= before + clauses_layout(
            clause_views(*clauses),
            prefix@,
            i as nat,
        ));
    }
}

/// Appends the lines of the drawing of `node` to `lines`.
#[verifier::rlimit(50)]
fn layout_into<'a>(node: &'a ASTNode, prefix: &str, is_last: bool, lines: &mut Vec<Line<'a>>)
    ensures
        line_views(final(lines)@) == line_views(old(lines)@) + spec_layout(
            node@,
            prefix@,
            is_last,
        ),
    decreases node, 0nat,
{
    let ghost before = line_views(lines@);
    let ghost drawn = spec_layout(node@, prefix@, is_last);
    push_line(lines, prefix, is_last, Label::Node(node));
    let inner = indent(prefix, is_last);
    match node {
        ASTNode::ReturnNode(Some(value)) => {
            layout_into(value, inner.as_str(), true, lines);
            assert(line_views(lines@) =~= before + drawn);
        },
        ASTNode::BinOpNode { op, left, right } => {
            layout_into(left, inner.as_str(), false, lines);
            layout_into(right, inner.as_str(), true, lines);
            assert(line_views(lines@) =~= before + drawn);
        },
        ASTNode::VarDecNode { name, value } => {
            layout_into(value, inner.as_str(), true, lines);
            assert(line_views(lines@) =~= before + drawn);
        },
        ASTNode::AssignNode { name, value } => {
            layout_into(value, inner.as_str(), true, lines);
            assert(line_views(lines@) =~= before + drawn);
        },
        ASTNode::IfElseNode { condition, then_branch, elif_branch, else_branch } => {
            layout_into(condition, inner.as_str(), false, lines);
            push_line(lines, inner.as_str(), false, Label::Then);
            let deeper = indent(inner.as_str(), false);
            layout_list(
                then_branch,
                deeper.as_str(),
                elif_branch.len() == 0 && else_branch.is_none(),
                lines,
            );
            layout_clauses(elif_branch, inner.as_str(), lines);
            let ghost without_else = line_views(lines@);
            let ghost head = title(prefix@, is_last, LabelView::Node(node@));
            assert(without_else =~= before + (head + spec_layout(condition@, inner@, false) + title(
                inner@,
                false,
                LabelView::Then,
            ) + list_layout(
                ast_views(*then_branch),
                inner@ + bar(),
                elif_branch.len() == 0 && else_branch is None,
                then_branch.len() as nat,
            ) + clauses_layout(clause_views(*elif_branch), inner@, elif_branch.len() as nat)));
            match else_branch {
                Some(block) => {
                    push_line(lines, inner.as_str(), true, Label::Else);
                    let under_else = indent(inner.as_str(), true);
                    layout_list(block, under_else.as_str(), true, lines);
                    assert(line_views(lines@) =~= before + drawn);
                },
                None => {
                    assert(line_views(lines@) =~= before + drawn);
                },
            }
        },
        ASTNode::LoopNode { condition, block } => {
            layout_into(condition, inner.as_str(), false, lines);
            layout_list(block, inner.as_str(), true, lines);
            assert(line_views(lines@) =~= before + drawn);
        },
        ASTNode::FuncCall { name, arguments } => {
            layout_list(arguments, inner.as_str(), true, lines);
            assert(line_views(lines@) =~= before + drawn);
        },
        ASTNode::FuncDef { name, arguments, block } => {
            push_line(lines, inner.as_str(), false, Label::Args(arguments));
            layout_list(block, inner.as_str(), true, lines);
            assert(line_views(lines@) =~= before + drawn);
        },
        _ => {
            assert(line_views(lines@) =~= before + drawn);
        },
    }
}

/// The lines of the drawing of `node`, from top to bottom: the head of the
/// node with the indentation `prefix`, then its children, each one level
/// deeper than its parent.
pub fn layout<'a>(node: &'a ASTNode, prefix: &str, is_last: bool) -> (lines: Vec<Line<'a>>)
    ensures
        line_views(lines@) == spec_layout(node@, prefix@, is_last),
{
    let mut lines: Vec<Line<'a>> = Vec::new();
    assert(line_views(lines@) =~= Seq::empty());
    layout_into(node, prefix, is_last, &mut lines);
    assert(Seq::<LineView>::empty() + spec_layout(node@, prefix@, is_last) =~= spec_layout(
        node@,
        prefix@,
        is_last,
    ));
    lines
}

} // verus!
