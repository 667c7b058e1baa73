use vstd::prelude::*;
use crate::pos::Pos;

verus! {

/// A parsed operand value: a name (register or label reference, a label
/// reference written `.name` keeps its leading dot) or an integer literal.
#[derive(Debug, Clone)]
pub enum Value {
    Id(String),
    Int(i32),
}

/// Mathematical image of a `Value`.
#[verifier::ext_equal]
pub enum ValueV {
    Id(Seq<char>),
    Int(i32),
}

impl DeepView for Value {
    type V = ValueV;

    open spec fn deep_view(&self) -> ValueV {
        match self {
            Value::Id(s) => ValueV::Id(s@),
            Value::Int(i) => ValueV::Int(*i),
        }
    }
}

/// A parsed operand: a bare value, or a value wrapped in `[` `]` for
/// memory-indirect use.
#[derive(Debug, Clone)]
pub enum Operand {
    Value(Value),
    Address(Value),
}

/// Mathematical image of an `Operand`.
#[verifier::ext_equal]
pub enum OperandV {
    Value(ValueV),
    Address(ValueV),
}

impl DeepView for Operand {
    type V = OperandV;

    open spec fn deep_view(&self) -> OperandV {
        match self {
            Operand::Value(v) => OperandV::Value(v.deep_view()),
            Operand::Address(v) => OperandV::Address(v.deep_view()),
        }
    }
}

/// Whether a label is global, or local to the nearest preceding global.
#[derive(Debug, Clone, Copy, PartialEq, Eq, Structural)]
pub enum LabelType {
    Global,
    Local,
}

/// A label line: its name and scope kind, with the position of its
/// first token.
#[derive(Debug, Clone)]
pub struct Label {
    pub value: String,
    pub label_type: LabelType,
    pub pos: Pos,
}

/// Mathematical image of a `Label`.
#[verifier::ext_equal]
pub struct LabelV {
    pub value: Seq<char>,
    pub label_type: LabelType,
    pub pos: Pos,
}

impl DeepView for Label {
    type V = LabelV;

    open spec fn deep_view(&self) -> LabelV {
        LabelV { value: self.value@, label_type: self.label_type, pos: self.pos }
    }
}

/// An instruction line: mnemonic text, an optional attribute identifier
/// between the mnemonic and the operands, and the operands, with the
/// position of the mnemonic token.
#[derive(Debug, Clone)]
pub struct Instruction {
    pub operator: String,
    pub attribute: Option<String>,
    pub operands: Vec<Operand>,
    pub pos: Pos,
}

/// Mathematical image of an `Instruction`.
#[verifier::ext_equal]
pub struct InstructionV {
    pub operator: Seq<char>,
    pub attribute: Option<Seq<char>>,
    pub operands: Seq<OperandV>,
    pub pos: Pos,
}

impl DeepView for Instruction {
    type V = InstructionV;

    open spec fn deep_view(&self) -> InstructionV {
        InstructionV {
            operator: self.operator@,
            attribute: match self.attribute {
                Option::Some(ref a) => Option::Some(a@),
                Option::None => Option::None,
            },
            operands: self.operands.deep_view(),
            pos: self.pos,
        }
    }
}

/// One parsed source line: a label or an instruction.
#[derive(Debug, Clone)]
pub enum Line {
    Label(Label),
    Instruction(Instruction),
}

/// Mathematical image of a `Line`.
#[verifier::ext_equal]
pub enum LineV {
    Label(LabelV),
    Instruction(InstructionV),
}

impl DeepView for Line {
    type V = LineV;

    open spec fn deep_view(&self) -> LineV {
        match self {
            Line::Label(l) => LineV::Label(l.deep_view()),
            Line::Instruction(i) => LineV::Instruction(i.deep_view()),
        }
    }
}

} // verus!
