//! The command model: the closed set of VM instructions and their operands.

use vstd::prelude::*;

verus! {

/// Whether a stack command moves a value onto or off the runtime stack.
#[derive(Clone, Copy, PartialEq, Eq, Structural, Debug)]
pub enum StackAction {
    Push,
    Pop,
}

/// A memory segment of the VM runtime convention.  `Static` carries the
/// scope (translation-unit) name, so that equal indices used from two
/// different scopes name two distinct cells.
#[derive(Clone, Debug)]
pub enum Segment {
    Constant,
    Local,
    Argument,
    This,
    That,
    Temp,
    Pointer,
    Static(String),
}

/// One parsed VM command.  Label, goto and if-goto carry the label name and
/// the enclosing scope; function and call carry a name and a count.
#[derive(Clone, Debug)]
pub enum Command {
    Add,
    Sub,
    Eq,
    Lt,
    Gt,
    And,
    Or,
    Neg,
    Not,
    Stack(StackAction, Segment, u16),
    Label(String, String),
    Goto(String, String),
    If(String, String),
    Function(String, u16),
    Call(String, u16),
    Return,
}

/// Mathematical model of a segment: names are sequences of characters.
pub enum SegmentV {
    Constant,
    Local,
    Argument,
    This,
    That,
    Temp,
    Pointer,
    Static(Seq<char>),
}

/// Mathematical model of a command.
pub enum CommandV {
    Add,
    Sub,
    Eq,
    Lt,
    Gt,
    And,
    Or,
    Neg,
    Not,
    Stack(StackAction, SegmentV, u16),
    Label(Seq<char>, Seq<char>),
    Goto(Seq<char>, Seq<char>),
    If(Seq<char>, Seq<char>),
    Function(Seq<char>, u16),
    Call(Seq<char>, u16),
    Return,
}

impl View for Segment {
    type V = SegmentV;

    open spec fn view(&self) -> SegmentV {
        match self {
            Segment::Constant => SegmentV::Constant,
            Segment::Local => SegmentV::Local,
            Segment::Argument => SegmentV::Argument,
            Segment::This => SegmentV::This,
            Segment::That => SegmentV::That,
            Segment::Temp => SegmentV::Temp,
            Segment::Pointer => SegmentV::Pointer,
            Segment::Static(scope) => SegmentV::Static(scope@),
        }
    }
}

impl View for Command {
    type V = CommandV;

    open spec fn view(&self) -> CommandV {
        match self {
            Command::Add => CommandV::Add,
            Command::Sub => CommandV::Sub,
            Command::Eq => CommandV::Eq,
            Command::Lt => CommandV::Lt,
            Command::Gt => CommandV::Gt,
            Command::And => CommandV::And,
            Command::Or => CommandV::Or,
            Command::Neg => CommandV::Neg,
            Command::Not => CommandV::Not,
            Command::Stack(act, seg, idx) => CommandV::Stack(*act, seg@, *idx),
            Command::Label(name, scope) => CommandV::Label(name@, scope@),
            Command::Goto(name, scope) => CommandV::Goto(name@, scope@),
            Command::If(name, scope) => CommandV::If(name@, scope@),
            Command::Function(name, k) => CommandV::Function(name@, *k),
            Command::Call(name, n) => CommandV::Call(name@, *n),
            Command::Return => CommandV::Return,
        }
    }
}

/// The view of a whole command sequence.
pub open spec fn cmds_view(s: Seq<Command>) -> Seq<CommandV> {
    s.map_values(|c: Command| c@)
}

} // verus!
