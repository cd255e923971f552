use vstd::prelude::*;
use crate::text::{debug_quoted, decimal_of, i32_text, str_debug_of};
use crate::types::{opt_view, DrawCall, DrawType, DrawView};

verus! {

/// The model of a syntax tree node, over character sequences.
pub enum Ast {
    Program(Seq<Ast>),
    Assignment(Seq<char>, Box<Ast>),
    Number(i32),
    Boolean(bool),
    Identifier(Seq<char>),
    StringLiteral(Seq<char>),
    BinaryOp(Seq<char>, Box<Ast>, Box<Ast>),
    Call(Seq<char>, Seq<Ast>),
    Draw(DrawView),
    ControlFlow(Seq<char>, Option<Box<Ast>>, Seq<Ast>),
    Ignore,
}

/// A node of the syntax tree; each node owns its children.
#[derive(Debug)]
pub enum ASTNode {
    Program(Vec<ASTNode>),
    Assignment { name: String, value: Box<ASTNode> },
    Number(i32),
    Boolean(bool),
    Identifier(String),
    StringLiteral(String),
    BinaryOp { op: String, left: Box<ASTNode>, right: Box<ASTNode> },
    SDL2Call { function: String, args: Vec<ASTNode> },
    DrawCall(DrawCall),
    ControlFlow { control_type: String, condition: Option<Box<ASTNode>>, body: Vec<ASTNode> },
    Ignore,
}

/// The models of a list of nodes.
pub open spec fn views(v: Seq<ASTNode>) -> Seq<Ast>
    decreases v,
{
    Seq::new(v.len(), |i: int| if 0 <= i < v.len() { v[i].view() } else { Ast::Ignore })
}

impl ASTNode {
    pub open spec fn view(&self) -> Ast
        decreases self,
    {
        match self {
            ASTNode::Program(v) => Ast::Program(
                views(v@),
            ),
            ASTNode::Assignment { name, value } => Ast::Assignment(name@, Box::new(value.view())),
            ASTNode::Number(n) => Ast::Number(*n),
            ASTNode::Boolean(b) => Ast::Boolean(*b),
            ASTNode::Identifier(s) => Ast::Identifier(s@),
            ASTNode::StringLiteral(s) => Ast::StringLiteral(s@),
            ASTNode::BinaryOp { op, left, right } => Ast::BinaryOp(
                op@,
                Box::new(left.view()),
                Box::new(right.view()),
            ),
            ASTNode::SDL2Call { function, args } => Ast::Call(
                function@,
                views(args@),
            ),
            ASTNode::DrawCall(d) => Ast::Draw(d@),
            ASTNode::ControlFlow { control_type, condition, body } => Ast::ControlFlow(
                control_type@,
                match condition {
                    Some(c) => Some(Box::new(c.view())),
                    None => None,
                },
                views(body@),
            ),
            ASTNode::Ignore => Ast::Ignore,
        }
    }
}

/// `{:?}` of an optional string.
pub open spec fn render_opt_str(o: Option<Seq<char>>) -> Seq<char> {
    match o {
        Some(s) => "Some("@ + str_debug_of(s) + ")"@,
        None => "None"@,
    }
}

pub open spec fn render_draw_type(t: DrawType) -> Seq<char> {
    match t {
        DrawType::Rect => "Rect"@,
        DrawType::Circle => "Circle"@,
    }
}

/// `{:?}` of a draw call.
pub open spec fn render_draw(d: DrawView) -> Seq<char> {
    "DrawCall { draw_type: "@ + render_draw_type(d.draw_type) + ", x: "@ + str_debug_of(d.x)
        + ", y: "@ + str_debug_of(d.y) + ", w: "@ + render_opt_str(d.w) + ", h: "@
        + render_opt_str(d.h) + ", radius: "@ + render_opt_str(d.radius) + ", color: "@
        + str_debug_of(d.color) + " }"@
}

/// The items `v[0..n]`, each rendered, separated by `", "`.
pub open spec fn render_items(v: Seq<Ast>, n: int) -> Seq<char>
    decreases v, n,
{
    if n <= 0 || n > v.len() {
        Seq::empty()
    } else if n == 1 {
        render(v[0])
    } else {
        render_items(v, n - 1) + ", "@ + render(v[n - 1])
    }
}

/// `{:?}` of a list of nodes.
pub open spec fn render_list(v: Seq<Ast>) -> Seq<char>
    decreases v, v.len() + 1,
{
    "["@ + render_items(v, v.len() as int) + "]"@
}

/// The `{:?}` rendering of a node.
pub open spec fn render(a: Ast) -> Seq<char>
    decreases a, 0int,
{
    match a {
        Ast::Program(v) => "Program("@ + render_list(v) + ")"@,
        Ast::Assignment(n, v) => "Assignment { name: "@ + str_debug_of(n) + ", value: "@ + render(*v)
            + " }"@,
        Ast::Number(n) => "Number("@ + decimal_of(n as int) + ")"@,
        Ast::Boolean(b) => if b {
            "Boolean(true)"@
        } else {
            "Boolean(false)"@
        },
        Ast::Identifier(s) => "Identifier("@ + str_debug_of(s) + ")"@,
        Ast::StringLiteral(s) => "StringLiteral("@ + str_debug_of(s) + ")"@,
        Ast::BinaryOp(op, l, r) => "BinaryOp { op: "@ + str_debug_of(op) + ", left: "@ + render(*l)
            + ", right: "@ + render(*r) + " }"@,
        Ast::Call(f, args) => "SDL2Call { function: "@ + str_debug_of(f) + ", args: "@
            + render_list(args) + " }"@,
        Ast::Draw(d) => "DrawCall("@ + render_draw(d) + ")"@,
        Ast::ControlFlow(k, c, body) => "ControlFlow { control_type: "@ + str_debug_of(k)
            + ", condition: "@ + match c {
            Some(c) => "Some("@ + render(*c) + ")"@,
            None => "None"@,
        } + ", body: "@ + render_list(body) + " }"@,
        Ast::Ignore => "Ignore"@,
    }
}

fn render_opt(o: &Option<String>) -> (r: String)
    ensures
        r@ == render_opt_str(opt_view(*o)),
{
    match o {
        Some(s) => {
            let mut r = String::from_str("Some(");
            r.append(debug_quoted(s.as_str()).as_str());
            r.append(")");
            r
        },
        None => String::from_str("None"),
    }
}

/// The `{:?}` rendering of a draw call.
pub fn render_draw_call(d: &DrawCall) -> (r: String)
    ensures
        r@ == render_draw(d@),
{
    let mut r = String::from_str("DrawCall { draw_type: ");
    match d.draw_type {
        DrawType::Rect => r.append("Rect"),
        DrawType::Circle => r.append("Circle"),
    }
    r.append(", x: ");
    r.append(debug_quoted(d.x.as_str()).as_str());
    r.append(", y: ");
    r.append(debug_quoted(d.y.as_str()).as_str());
    r.append(", w: ");
    r.append(render_opt(&d.w).as_str());
    r.append(", h: ");
    r.append(render_opt(&d.h).as_str());
    r.append(", radius: ");
    r.append(render_opt(&d.radius).as_str());
    r.append(", color: ");
    r.append(debug_quoted(d.color.as_str()).as_str());
    r.append(" }");
    r
}

fn render_node_list(v: &Vec<ASTNode>) -> (r: String)
    ensures
        r@ == render_list(views(v@)),
    decreases v, 0int,
{
    let ghost vs = views(v@);
    let mut r = String::from_str("[");
    let mut i: usize = 0;
    while i < v.len()
        invariant
            i <= v@.len(),
            vs == views(v@),
            r@ == "["@ + render_items(vs, i as int),
        decreases v@.len() - i,
    {
        if i > 0 {
            r.append(", ");
        }
        r.append(render_node(&v[i]).as_str());
        i = i + 1;
    }
    r.append("]");
    r
}

/// The `{:?}` rendering of a node.
pub fn render_node(n: &ASTNode) -> (r: String)
    ensures
        r@ == render(n@),
    decreases n, 1int,
{
    match n {
        ASTNode::Program(v) => {
            let mut r = String::from_str("Program(");
            r.append(render_node_list(v).as_str());
            r.append(")");
            r
        },
        ASTNode::Assignment { name, value } => {
            let mut r = String::from_str("Assignment { name: ");
            r.append(debug_quoted(name.as_str()).as_str());
            r.append(", value: ");
            r.append(render_node(value).as_str());
            r.append(" }");
            r
        },
        ASTNode::Number(k) => {
            let mut r = String::from_str("Number(");
            r.append(i32_text(*k).as_str());
            r.append(")");
            r
        },
        ASTNode::Boolean(b) => if *b {
            String::from_str("Boolean(true)")
        } else {
            String::from_str("Boolean(false)")
        },
        ASTNode::Identifier(s) => {
            let mut r = String::from_str("Identifier(");
            r.append(debug_quoted(s.as_str()).as_str());
            r.append(")");
            r
        },
        ASTNode::StringLiteral(s) => {
            let mut r = String::from_str("StringLiteral(");
            r.append(debug_quoted(s.as_str()).as_str());
            r.append(")");
            r
        },
        ASTNode::BinaryOp { op, left, right } => {
            let mut r = String::from_str("BinaryOp { op: ");
            r.append(debug_quoted(op.as_str()).as_str());
            r.append(", left: ");
            r.append(render_node(left).as_str());
            r.append(", right: ");
            r.append(render_node(right).as_str());
            r.append(" }");
            r
        },
        ASTNode::SDL2Call { function, args } => {
            let mut r = String::from_str("SDL2Call { function: ");
            r.append(debug_quoted(function.as_str()).as_str());
            r.append(", args: ");
            r.append(render_node_list(args).as_str());
            r.append(" }");
            r
        },
        ASTNode::DrawCall(d) => {
            let mut r = String::from_str("DrawCall(");
            r.append(render_draw_call(d).as_str());
            r.append(")");
            r
        },
        ASTNode::ControlFlow { control_type, condition, body } => {
            let mut r = String::from_str("ControlFlow { control_type: ");
            r.append(debug_quoted(control_type.as_str()).as_str());
            r.append(", condition: ");
            match condition {
                Some(c) => {
                    r.append("Some(");
                    r.append(render_node(c).as_str());
                    r.append(")");
                },
                None => r.append("None"),
            }
            r.append(", body: ");
            r.append(render_node_list(body).as_str());
            r.append(" }");
            r
        },
        ASTNode::Ignore => String::from_str("Ignore"),
    }
}

} // verus!
