use vstd::prelude::*;

verus! {

/// The lexical class of a token.
#[derive(PartialEq, Eq, Structural, Debug, Clone, Copy)]
pub enum TokenType {
    Keyword,
    Identifier,
    Number,
    String,
    Symbol,
    Comment,
    Eol,
}

/// A classified lexical unit.
#[derive(Debug, Clone)]
pub struct Token {
    pub token_type: TokenType,
    pub value: String,
}

/// A declared user variable: its name, the rendering of the assigned
/// expression, and the kind inferred from that rendering
/// (`"bool"`, `"tuple"` or `"i32"`).
#[derive(Debug)]
pub struct Variable {
    pub name: String,
    pub value: String,
    pub tipo: String,
}

/// The model of a `Variable`.
pub struct VarView {
    pub name: Seq<char>,
    pub value: Seq<char>,
    pub tipo: Seq<char>,
}

impl Variable {
    pub open spec fn view(&self) -> VarView {
        VarView { name: self.name@, value: self.value@, tipo: self.tipo@ }
    }
}

/// The shape a draw invocation renders.
#[derive(PartialEq, Eq, Structural, Debug, Clone, Copy)]
pub enum DrawType {
    Rect,
    Circle,
}

/// A recognised draw invocation; every field holds the rendering of an
/// argument expression (or a fixed default).
#[derive(Debug, Clone)]
pub struct DrawCall {
    pub draw_type: DrawType,
    pub x: String,
    pub y: String,
    pub w: Option<String>,
    pub h: Option<String>,
    pub radius: Option<String>,
    pub color: String,
}

/// The model of a `DrawCall`: its fields as character sequences.
pub struct DrawView {
    pub draw_type: DrawType,
    pub x: Seq<char>,
    pub y: Seq<char>,
    pub w: Option<Seq<char>>,
    pub h: Option<Seq<char>>,
    pub radius: Option<Seq<char>>,
    pub color: Seq<char>,
}

pub open spec fn opt_view(o: Option<String>) -> Option<Seq<char>> {
    match o {
        Some(s) => Some(s@),
        None => None,
    }
}

impl DrawCall {
    pub open spec fn view(&self) -> DrawView {
        DrawView {
            draw_type: self.draw_type,
            x: self.x@,
            y: self.y@,
            w: opt_view(self.w),
            h: opt_view(self.h),
            radius: opt_view(self.radius),
            color: self.color@,
        }
    }
}

/// A flattened control-flow record: the block keyword and the rendering of
/// its condition, if any.
#[derive(Debug)]
pub struct ControlFlow {
    pub control_type: String,
    pub condition: Option<String>,
}

/// The model of a `ControlFlow` record.
pub struct FlowView {
    pub control_type: Seq<char>,
    pub condition: Option<Seq<char>>,
}

impl ControlFlow {
    pub open spec fn view(&self) -> FlowView {
        FlowView { control_type: self.control_type@, condition: opt_view(self.condition) }
    }
}

/// The model of a program state: its three lists.
pub struct StateView {
    pub variables: Seq<VarView>,
    pub draw_calls: Seq<DrawView>,
    pub control_flow: Seq<FlowView>,
}

impl StateView {
    pub open spec fn empty() -> StateView {
        StateView { variables: seq![], draw_calls: seq![], control_flow: seq![] }
    }

    /// The lists of `self` followed by those of `o`.
    pub open spec fn plus(self, o: StateView) -> StateView {
        StateView {
            variables: self.variables + o.variables,
            draw_calls: self.draw_calls + o.draw_calls,
            control_flow: self.control_flow + o.control_flow,
        }
    }
}

/// The flattened program state that code generation consumes.
#[derive(Debug)]
pub struct State {
    pub variables: Vec<Variable>,
    pub draw_calls: Vec<DrawCall>,
    pub control_flow: Vec<ControlFlow>,
}

impl State {
    pub open spec fn view(&self) -> StateView {
        StateView {
            variables: self.variables@.map_values(|v: Variable| v@),
            draw_calls: self.draw_calls@.map_values(|d: DrawCall| d@),
            control_flow: self.control_flow@.map_values(|c: ControlFlow| c@),
        }
    }
}

} // verus!
