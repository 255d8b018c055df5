use vstd::prelude::*;
use crate::identifier::Identifier;
use crate::single_assignment_memory::{clone_identifiers, value_view, Value, ValueView};

verus! {

/// What an instruction is, apart from how it is laid out in memory.
pub enum InstructionView {
    Thread(Seq<InstructionView>),
    Local(Seq<Seq<char>>, Seq<InstructionView>),
    Assign(Seq<char>, ValueView),
    AssignAdd(Seq<char>, Seq<char>, Seq<char>),
    Print(Seq<char>),
}

/// One operation of a program. An instruction is plain data: the
/// environment in which it runs travels beside it, in its frame.
#[derive(Debug, PartialEq, Eq)]
pub enum VmInstruction {
    /// Start a new logical thread that runs the body in the current
    /// environment.
    Thread(Vec<VmInstruction>),
    /// Open a scope: a fresh variable for each identifier, visible to the
    /// body only.
    Local(Vec<Identifier>, Vec<VmInstruction>),
    /// Bind the variable of the identifier to the value.
    Assign(Identifier, Value),
    /// Bind the variable of the first identifier to the sum of the
    /// integers that the other two hold.
    AssignAdd(Identifier, Identifier, Identifier),
    /// Report what the variable of the identifier holds.
    Print(Identifier),
}

/// The mathematical instruction that `instruction` stands for.
pub open spec fn instruction_view(instruction: VmInstruction) -> InstructionView
    decreases instruction, 0nat,
{
    match instruction {
        VmInstruction::Thread(body) => InstructionView::Thread(instructions_view(body)),
        VmInstruction::Local(names, body) => InstructionView::Local(
            names.deep_view(),
            instructions_view(body),
        ),
        VmInstruction::Assign(name, value) => InstructionView::Assign(name@, value_view(value)),
        VmInstruction::AssignAdd(target, lhs, rhs) => InstructionView::AssignAdd(
            target@,
            lhs@,
            rhs@,
        ),
        VmInstruction::Print(name) => InstructionView::Print(name@),
    }
}

/// The mathematical instructions that a list of instructions stands for.
pub open spec fn instructions_view(instructions: Vec<VmInstruction>) -> Seq<InstructionView>
    decreases instructions, 1nat,
{
    Seq::new(
        instructions@.len(),
        |i: int|
            if 0 <= i < instructions@.len() {
                instruction_view(instructions@[i])
            } else {
                arbitrary()
            },
    )
}

impl View for VmInstruction {
    type V = InstructionView;

    open spec fn view(&self) -> InstructionView {
        instruction_view(*self)
    }
}

impl DeepView for VmInstruction {
    type V = InstructionView;

    open spec fn deep_view(&self) -> InstructionView {
        instruction_view(*self)
    }
}

/// A copy of a list of instructions.
pub fn clone_instructions(instructions: &Vec<VmInstruction>) -> (copy: Vec<VmInstruction>)
    ensures
        instructions_view(copy) == instructions_view(*instructions),
    decreases *instructions, 1nat,
{
    let mut copy: Vec<VmInstruction> = Vec::new();
    let mut i: usize = 0;
    while i < instructions.len()
        invariant
            i <= instructions.len(),
            copy.len() == i,
            forall|j: int| 0 <= j < i ==> copy@[j]@ == instructions@[j]@,
        decreases instructions.len() - i,
    {
        copy.push(instructions[i].clone());
        i += 1;
    }
    assert(instructions_view(copy) =~= instructions_view(*instructions));
    copy
}

impl Clone for VmInstruction {
    fn clone(&self) -> (copy: VmInstruction)
        ensures
            copy@ == self@,
        decreases *self, 0nat,
    {
        match self {
            VmInstruction::Thread(body) => VmInstruction::Thread(clone_instructions(body)),
            VmInstruction::Local(names, body) => VmInstruction::Local(
                clone_identifiers(names),
                clone_instructions(body),
            ),
            VmInstruction::Assign(name, value) => VmInstruction::Assign(name.clone(), value.clone()),
            VmInstruction::AssignAdd(target, lhs, rhs) => VmInstruction::AssignAdd(
                target.clone(),
                lhs.clone(),
                rhs.clone(),
            ),
            VmInstruction::Print(name) => VmInstruction::Print(name.clone()),
        }
    }
}

} // verus!
