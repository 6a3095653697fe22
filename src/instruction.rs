//! The instructions that compiled templates consist of.
use vstd::prelude::*;

verus! {

/// One step of a compiled template. Jump targets are indices into the
/// instruction list of the same template.
#[derive(Debug)]
pub enum Instruction {
    /// Appends the text as it stands.
    Literal(String),
    /// Resolves the path and appends it through the named formatters, applied
    /// left to right, or through the default formatter where none is named.
    Value(Vec<String>, Vec<String>),
    /// Resolves the path and goes on at the target where the value is false.
    Branch(Vec<String>, usize),
    /// Goes on at the target.
    Jump(usize),
    /// Resolves the path, which must be an array, and binds the name to each of
    /// its elements in turn; goes on at the target where the array is empty.
    PushLoopScope(Vec<String>, String, usize),
    /// Goes back to the target, the start of the loop body, while elements remain.
    Iterate(usize),
    /// Ends the scope of a loop.
    PopLoopScope,
}

/// What an instruction means, with its text as character sequences.
pub enum Op {
    Literal(Seq<char>),
    Value(Seq<Seq<char>>, Seq<Seq<char>>),
    Branch(Seq<Seq<char>>, nat),
    Jump(nat),
    PushLoopScope(Seq<Seq<char>>, Seq<char>, nat),
    Iterate(nat),
    PopLoopScope,
}

pub open spec fn texts(v: Seq<String>) -> Seq<Seq<char>> {
    v.map_values(|x: String| x@)
}

pub open spec fn op_of(i: Instruction) -> Op {
    match i {
        Instruction::Literal(s) => Op::Literal(s@),
        Instruction::Value(p, f) => Op::Value(texts(p@), texts(f@)),
        Instruction::Branch(p, t) => Op::Branch(texts(p@), t as nat),
        Instruction::Jump(t) => Op::Jump(t as nat),
        Instruction::PushLoopScope(p, n, t) => Op::PushLoopScope(texts(p@), n@, t as nat),
        Instruction::Iterate(t) => Op::Iterate(t as nat),
        Instruction::PopLoopScope => Op::PopLoopScope,
    }
}

/// The meaning of a list of instructions.
pub open spec fn ops_of(v: Seq<Instruction>) -> Seq<Op> {
    v.map_values(|i: Instruction| op_of(i))
}

} // verus!
