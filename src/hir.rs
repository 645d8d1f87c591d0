use vstd::prelude::*;
use crate::pos::BiPos;

verus! {

/// The primitive types this stage verifies and infers.
#[derive(Clone, Copy, Debug, PartialEq, Eq, Structural)]
pub enum PrimitiveType {
    Integer,
    Float,
    String,
    Bool,
    Unit,
}

/// The type state of an instruction.
#[derive(Clone, Debug)]
pub enum TypeSignature {
    /// Not known yet.
    Untyped,
    Primitive(PrimitiveType),
    /// An already resolved composite type, named; carried through unchanged.
    Composite(String),
}

/// An opcode with its operands.
#[derive(Clone, Debug)]
pub enum HIRInstruction {
    Integer(i64),
    /// A floating-point literal, as its decimal text.
    Float(String),
    String(String),
    Bool(bool),
    /// A function parameter declaration, named.
    FnParam(String),
    /// A named declaration whose value follows it in the stream.
    Property(String),
    /// The end of a module's instruction stream.
    Halt,
}

/// One IR instruction.
#[derive(Clone, Debug)]
pub struct HIR {
    pub ins: HIRInstruction,
    pub sig: TypeSignature,
    pub pos: BiPos,
}

/// The name of a primitive type.
pub open spec fn prim_name(p: PrimitiveType) -> Seq<char> {
    match p {
        PrimitiveType::Integer => "Integer"@,
        PrimitiveType::Float => "Float"@,
        PrimitiveType::String => "String"@,
        PrimitiveType::Bool => "Bool"@,
        PrimitiveType::Unit => "Unit"@,
    }
}

/// The name of a type signature.
pub open spec fn sig_name(s: TypeSignature) -> Seq<char> {
    match s {
        TypeSignature::Untyped => "Untyped"@,
        TypeSignature::Primitive(p) => prim_name(p),
        TypeSignature::Composite(n) => n@,
    }
}

/// The primitive type of a literal opcode; none for other opcodes.
pub open spec fn literal_type(ins: HIRInstruction) -> Option<PrimitiveType> {
    match ins {
        HIRInstruction::Integer(_) => Some(PrimitiveType::Integer),
        HIRInstruction::Float(_) => Some(PrimitiveType::Float),
        HIRInstruction::String(_) => Some(PrimitiveType::String),
        HIRInstruction::Bool(_) => Some(PrimitiveType::Bool),
        _ => None,
    }
}

/// The signature an instruction is found to have: that of its literal, or
/// else the one it carries.
pub open spec fn found_sig(h: HIR) -> TypeSignature {
    match literal_type(h.ins) {
        Some(p) => TypeSignature::Primitive(p),
        None => h.sig,
    }
}

impl PrimitiveType {
    /// The name of this type.
    pub fn name(&self) -> (r: &'static str)
        ensures
            r@ == prim_name(*self),
    {
        match self {
            PrimitiveType::Integer => "Integer",
            PrimitiveType::Float => "Float",
            PrimitiveType::String => "String",
            PrimitiveType::Bool => "Bool",
            PrimitiveType::Unit => "Unit",
        }
    }
}

impl TypeSignature {
    /// The name of this signature.
    pub fn name(&self) -> (r: String)
        ensures
            r@ == sig_name(*self),
    {
        match self {
            TypeSignature::Untyped => String::from_str("Untyped"),
            TypeSignature::Primitive(p) => String::from_str(p.name()),
            TypeSignature::Composite(n) => String::from_str(n.as_str()),
        }
    }
}

impl HIR {
    /// The name of the signature this instruction is found to have.
    pub fn found_name(&self) -> (r: String)
        ensures
            r@ == sig_name(found_sig(*self)),
    {
        match &self.ins {
            HIRInstruction::Integer(_) => String::from_str("Integer"),
            HIRInstruction::Float(_) => String::from_str("Float"),
            HIRInstruction::String(_) => String::from_str("String"),
            HIRInstruction::Bool(_) => String::from_str("Bool"),
            _ => self.sig.name(),
        }
    }
}

} // verus!
