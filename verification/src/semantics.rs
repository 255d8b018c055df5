use vstd::prelude::*;
use crate::environment::Environment;
use crate::instruction::{clone_instructions, instructions_view, InstructionView, VmInstruction};
use crate::variable::Variable;

verus! {

/// What a frame is: the instructions still to run, first to last, and the
/// bindings in force for them.
pub struct FrameView {
    pub instructions: Seq<InstructionView>,
    pub environment: Map<Seq<char>, Variable>,
}

/// One frame of a continuation: a sequence of pending instructions with
/// the environment in which they run.
#[derive(Debug, PartialEq, Eq)]
pub struct SemanticInstruction(pub Vec<VmInstruction>, pub Environment);

impl View for SemanticInstruction {
    type V = FrameView;

    open spec fn view(&self) -> FrameView {
        FrameView { instructions: instructions_view(self.0), environment: self.1@ }
    }
}

impl DeepView for SemanticInstruction {
    type V = FrameView;

    open spec fn deep_view(&self) -> FrameView {
        self@
    }
}

impl Clone for SemanticInstruction {
    fn clone(&self) -> (copy: SemanticInstruction)
        ensures
            copy@ == self@,
    {
        SemanticInstruction(clone_instructions(&self.0), self.1.clone())
    }
}

/// The rest of the computation of one thread: a stack of frames, the last
/// of which runs next.
#[derive(Debug, PartialEq, Eq)]
pub struct SemanticStack(pub Vec<SemanticInstruction>);

impl View for SemanticStack {
    type V = Seq<FrameView>;

    open spec fn view(&self) -> Seq<FrameView> {
        self.0.deep_view()
    }
}

impl DeepView for SemanticStack {
    type V = Seq<FrameView>;

    open spec fn deep_view(&self) -> Seq<FrameView> {
        self@
    }
}

impl SemanticStack {
    /// Takes the frame that runs next off the stack, if there is one.
    pub fn pop(&mut self) -> (popped: Option<SemanticInstruction>)
        ensures
            match popped {
                Some(frame) => old(self)@.len() > 0 && frame@ == old(self)@.last() && final(self)@
                    == old(self)@.drop_last(),
                None => old(self)@.len() == 0 && final(self)@ == old(self)@,
            },
    {
        let popped = self.0.pop();
        assert(popped is Some ==> self@ =~= old(self)@.drop_last());
        popped
    }

    /// Puts `instruction` on the stack, to run next.
    pub fn push(&mut self, instruction: SemanticInstruction)
        ensures
            final(self)@ == old(self)@.push(instruction@),
    {
        self.0.push(instruction);
        assert(self@ =~= old(self)@.push(instruction@));
    }

    /// Whether nothing is left to run.
    pub fn is_empty(&self) -> (empty: bool)
        ensures
            empty == (self@.len() == 0),
    {
        self.0.is_empty()
    }
}

impl Clone for SemanticStack {
    fn clone(&self) -> (copy: SemanticStack)
        ensures
            copy@ == self@,
    {
        let mut frames: Vec<SemanticInstruction> = Vec::new();
        let mut i: usize = 0;
        while i < self.0.len()
            invariant
                i <= self.0.len(),
                frames.len() == i,
                forall|j: int| 0 <= j < i ==> frames@[j]@ == self.0@[j]@,
            decreases self.0.len() - i,
        {
            frames.push(self.0[i].clone());
            i += 1;
        }
        let copy = SemanticStack(frames);
        assert(copy@ =~= self@);
        copy
    }
}

} // verus!
