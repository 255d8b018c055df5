use vstd::prelude::*;
use crate::semantics::{FrameView, SemanticStack};

verus! {

/// Whether a thread may run.
#[derive(Clone, Copy, Debug, PartialEq, Eq, Hash, Structural)]
pub enum ThreadState {
    /// The thread tried to read a variable that was unbound, and waits.
    Blocked,
    /// The thread may run.
    Ready,
}

/// What a thread is: who it is, how soon it runs, whether it may run, and
/// what it has left to do.
pub struct ThreadView {
    pub id: u32,
    /// A lower number runs sooner.
    pub priority: u32,
    pub state: ThreadState,
    pub stack: Seq<FrameView>,
}

/// A logical thread: a unit that the scheduler picks, runs for one step
/// and puts back.
#[derive(Debug, PartialEq, Eq)]
pub struct Thread {
    id: u32,
    priority: u32,
    state: ThreadState,
    semantic_stack: SemanticStack,
}

impl View for Thread {
    type V = ThreadView;

    closed spec fn view(&self) -> ThreadView {
        ThreadView {
            id: self.id,
            priority: self.priority,
            state: self.state,
            stack: self.semantic_stack@,
        }
    }
}

impl DeepView for Thread {
    type V = ThreadView;

    open spec fn deep_view(&self) -> ThreadView {
        self@
    }
}

impl Thread {
    /// A thread that is ready to run `semantic_stack`.
    pub fn new(id: u32, priority: u32, semantic_stack: SemanticStack) -> (thread: Thread)
        ensures
            thread@ == (ThreadView {
                id,
                priority,
                state: ThreadState::Ready,
                stack: semantic_stack@,
            }),
    {
        Thread { id, priority, state: ThreadState::Ready, semantic_stack }
    }

    /// The thread that differs from this one in what `priority`, `state`
    /// and `semantic_stack` say.
    pub fn with(self, priority: u32, state: ThreadState, semantic_stack: SemanticStack) -> (thread:
        Thread)
        ensures
            thread@ == (ThreadView { id: self@.id, priority, state, stack: semantic_stack@ }),
    {
        Thread { id: self.id, priority, state, semantic_stack }
    }

    /// The number that tells this thread from the others.
    pub fn id(&self) -> (id: u32)
        ensures
            id == self@.id,
    {
        self.id
    }

    /// The priority of this thread: a lower number runs sooner.
    pub fn priority(&self) -> (priority: u32)
        ensures
            priority == self@.priority,
    {
        self.priority
    }

    /// Whether this thread may run.
    pub fn state(&self) -> (state: ThreadState)
        ensures
            state == self@.state,
    {
        self.state
    }

    /// What this thread has left to do.
    pub fn semantic_stack(&self) -> (semantic_stack: &SemanticStack)
        ensures
            semantic_stack@ == self@.stack,
    {
        &self.semantic_stack
    }
}

} // verus!
