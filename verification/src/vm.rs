use vstd::prelude::*;
use crate::environment::Environment;
use crate::error::VmError;
use crate::identifier::Identifier;
use crate::instruction::{instructions_view, VmInstruction};
use crate::machine;
use crate::machine::{
    advance, after_turns, fresh_variable, lemma_runs_next_is_unique, precedes, runs_next,
    scope_collides, scope_environment, scope_memory, step, waits, with_thread, VmView,
};
use crate::progress::{lemma_turn_makes_progress, pool_weight, ready_count};
use crate::semantics::{FrameView, SemanticInstruction, SemanticStack};
use crate::single_assignment_memory::{SingleAssignmentMemory, Value, ValueView};
use crate::thread::{Thread, ThreadState, ThreadView};
use crate::variable::Variable;

verus! {

/// What one reduction step did to the thread that took it.
#[derive(Debug, PartialEq, Eq)]
pub struct ExecutionResult {
    /// Whether the thread may go on or has to wait.
    pub state: ThreadState,
    /// What the thread has left to do.
    pub semantic_stack: SemanticStack,
}

/// The engine: the store, the pool of threads, and the output of `Print`.
pub struct Vm {
    memory: SingleAssignmentMemory,
    threads: Vec<Thread>,
    variables_made: u64,
    threads_made: u32,
    output: Vec<(Identifier, Value)>,
}

/// What a list of reports says: each name with the value reported for it.
pub open spec fn output_view(output: Seq<(Identifier, Value)>) -> Seq<(Seq<char>, ValueView)> {
    Seq::new(output.len(), |i: int| (output[i].0@, output[i].1@))
}

impl View for Vm {
    type V = VmView;

    closed spec fn view(&self) -> VmView {
        VmView {
            memory: self.memory@,
            threads: self.threads.deep_view(),
            variables_made: self.variables_made,
            threads_made: self.threads_made,
            output: output_view(self.output@),
        }
    }
}

/// Two of the variables that a machine makes in one run of fewer than
/// 2^64 are different.
proof fn lemma_fresh_variables_differ(made: u64, first: int, second: int)
    requires
        0 <= first < second < 0x1_0000_0000_0000_0000,
    ensures
        fresh_variable(made, first) != fresh_variable(made, second),
{
}

impl Vm {
    /// A machine with an empty store, no thread and no output.
    pub fn new() -> (vm: Vm)
        ensures
            vm@ == (VmView {
                memory: Map::empty(),
                threads: Seq::empty(),
                variables_made: 0,
                threads_made: 0,
                output: Seq::empty(),
            }),
    {
        let vm = Vm {
            memory: SingleAssignmentMemory::new(),
            threads: Vec::new(),
            variables_made: 0,
            threads_made: 0,
            output: Vec::new(),
        };
        assert(vm@.threads =~= Seq::empty());
        assert(vm@.output =~= Seq::empty());
        vm
    }

    /// Puts a new thread into the pool, ready to run `semantic_stack` at
    /// `priority`.
    pub fn create_thread(&mut self, priority: u32, semantic_stack: SemanticStack)
        ensures
            final(self)@ == with_thread(old(self)@, priority, semantic_stack@),
    {
        let id = self.threads_made.wrapping_add(1);
        self.threads_made = id;
        self.threads.push(Thread::new(id, priority, semantic_stack));
        assert(self@.threads =~= old(self)@.threads.push(
            ThreadView { id, priority, state: ThreadState::Ready, stack: semantic_stack@ },
        ));
    }
}

impl Vm {
    /// Runs `Thread(body)` under `environment`.
    fn spawn(&mut self, body: Vec<VmInstruction>, environment: Environment)
        ensures
            final(self)@ == with_thread(
                old(self)@,
                0,
                seq![FrameView { instructions: instructions_view(body), environment: environment@ }],
            ),
    {
        let mut frames: Vec<SemanticInstruction> = Vec::new();
        frames.push(SemanticInstruction(body, environment));
        let stack = SemanticStack(frames);
        assert(stack@ =~= seq![
            FrameView { instructions: instructions_view(body), environment: environment@ },
        ]);
        self.create_thread(0, stack);
    }

    /// Allocates a fresh variable for each of `names` and gives the
    /// environment that binds them, first to last, on top of `environment`.
    fn open_scope(&mut self, names: &Vec<Identifier>, environment: &Environment) -> (outcome:
        Result<Environment, VmError>)
        ensures
            match machine::open_scope(old(self)@, names@.len() as int) {
                Ok(after) => outcome matches Ok(scope) && final(self)@ == after && scope@
                    == scope_environment(
                    environment@,
                    names.deep_view(),
                    old(self)@.variables_made,
                ),
                Err(error) => outcome matches Err(reported) && reported == error && final(self)@
                    == old(self)@,
            },
    {
        let ghost made = self.variables_made;
        let ghost before = self.memory@;
        let count = names.len();
        let mut candidate: u64 = self.variables_made;
        let mut i: usize = 0;
        while i < count
            invariant
                i <= count,
                count == names@.len(),
                *self == *old(self),
                made == self.variables_made,
                before == self.memory@,
                candidate == ((made + i) % 0x1_0000_0000_0000_0000) as u64,
                forall|offset: int|
                    0 <= offset < i ==> !before.contains_key(#[trigger] fresh_variable(made, offset)),
            decreases count - i,
        {
            candidate = candidate.wrapping_add(1);
            assert(Variable { id: candidate } == fresh_variable(made, i as int));
            if self.memory.read(&Variable::new(candidate)).is_some() {
                return Err(VmError::DoubleAllocation);
            }
            i += 1;
        }
        let mut scope = environment.clone();
        candidate = self.variables_made;
        i = 0;
        assert(self.memory@ =~= scope_memory(before, made, 0));
        assert(names.deep_view().take(0) =~= Seq::empty());
        while i < count
            invariant
                i <= count,
                count == names@.len(),
                made == old(self).variables_made,
                before == old(self).memory@,
                self.threads == old(self).threads,
                self.variables_made == old(self).variables_made,
                self.threads_made == old(self).threads_made,
                self.output == old(self).output,
                candidate == ((made + i) % 0x1_0000_0000_0000_0000) as u64,
                !scope_collides(before, made, count as int),
                self.memory@ == scope_memory(before, made, i as int),
                scope@ == scope_environment(environment@, names.deep_view().take(i as int), made),
            decreases count - i,
        {
            candidate = candidate.wrapping_add(1);
            let variable = Variable::new(candidate);
            proof {
                assert(variable == fresh_variable(made, i as int));
                assert(!before.contains_key(variable));
                assert forall|offset: int| 0 <= offset < i implies variable != fresh_variable(
                    made,
                    offset,
                ) by {
                    lemma_fresh_variables_differ(made, offset, i as int);
                }
            }
            let _ = self.memory.allocate(variable);
            scope = scope.adjoint(&names[i], variable);
            proof {
                assert(self.memory@ =~= scope_memory(before, made, i + 1));
                let now = names.deep_view().take(i + 1);
                assert(now.drop_last() =~= names.deep_view().take(i as int));
                assert(now.last() == names@[i as int]@);
            }
            i += 1;
        }
        self.variables_made = candidate;
        assert(names.deep_view().take(count as int) =~= names.deep_view());
        Ok(scope)
    }

    /// Runs `Assign(name, value)` under `environment`.
    fn assign(&mut self, name: &Identifier, value: Value, environment: &Environment) -> (outcome:
        Result<(), VmError>)
        ensures
            match machine::assign(old(self)@, name@, value@, environment@) {
                Ok(after) => outcome is Ok && final(self)@ == after,
                Err(error) => outcome == Err::<(), VmError>(error) && final(self)@ == old(self)@,
            },
    {
        match environment.lookup(name) {
            None => Err(VmError::UnresolvedIdentifier),
            Some(variable) => self.memory.bind(variable, value),
        }
    }

    /// Runs `AssignAdd(target, lhs, rhs)` under `environment`, and says
    /// whether it is done: it is not while an operand is unbound.
    fn assign_add(
        &mut self,
        target: &Identifier,
        lhs: &Identifier,
        rhs: &Identifier,
        environment: &Environment,
    ) -> (outcome: Result<bool, VmError>)
        ensures
            match machine::assign_add(old(self)@, target@, lhs@, rhs@, environment@) {
                Ok(Some(after)) => outcome == Ok::<bool, VmError>(true) && final(self)@ == after,
                Ok(None) => outcome == Ok::<bool, VmError>(false) && final(self)@ == old(self)@,
                Err(error) => outcome == Err::<bool, VmError>(error) && final(self)@ == old(self)@,
            },
    {
        let left = match environment.lookup(lhs) {
            None => {
                return Err(VmError::UnresolvedIdentifier);
            },
            Some(variable) => *variable,
        };
        let right = match environment.lookup(rhs) {
            None => {
                return Err(VmError::UnresolvedIdentifier);
            },
            Some(variable) => *variable,
        };
        let sum = match environment.lookup(target) {
            None => {
                return Err(VmError::UnresolvedIdentifier);
            },
            Some(variable) => *variable,
        };
        let total = match (self.memory.read(&left), self.memory.read(&right)) {
            (Some(a), Some(b)) => {
                if !a.is_bound() || !b.is_bound() {
                    return Ok(false);
                }
                match (a, b) {
                    (Value::Int(a), Value::Int(b)) => a.wrapping_add(*b),
                    _ => {
                        return Err(VmError::TypeMismatch);
                    },
                }
            },
            _ => {
                return Err(VmError::UnallocatedRead);
            },
        };
        match self.memory.bind(&sum, Value::Int(total)) {
            Err(error) => Err(error),
            Ok(()) => Ok(true),
        }
    }

    /// Runs `Print(name)` under `environment`.
    fn print(&mut self, name: &Identifier, environment: &Environment) -> (outcome: Result<
        (),
        VmError,
    >)
        ensures
            match machine::print(old(self)@, name@, environment@) {
                Ok(after) => outcome is Ok && final(self)@ == after,
                Err(error) => outcome == Err::<(), VmError>(error) && final(self)@ == old(self)@,
            },
    {
        let variable = match environment.lookup(name) {
            None => {
                return Err(VmError::UnresolvedIdentifier);
            },
            Some(variable) => *variable,
        };
        let held = match self.memory.read(&variable) {
            None => {
                return Err(VmError::UnallocatedRead);
            },
            Some(value) => value.clone(),
        };
        self.output.push((name.clone(), held));
        assert(self@.output =~= old(self)@.output.push((name@, old(self)@.memory[variable])));
        Ok(())
    }

    /// Takes one reduction step of `semantic_stack`: the frame on top of
    /// it decides what is done. A malformed program is reported, and the
    /// machine is then as it was.
    pub fn execute(&mut self, semantic_stack: SemanticStack) -> (outcome: Result<
        ExecutionResult,
        VmError,
    >)
        ensures
            match step(old(self)@, semantic_stack@) {
                Ok(after) => outcome matches Ok(result) && final(self)@ == after.machine
                    && result.state == after.state && result.semantic_stack@ == after.stack,
                Err(error) => outcome matches Err(reported) && reported == error && final(self)@
                    == old(self)@,
            },
    {
        let ghost stack = semantic_stack@;
        let mut semantic_stack = semantic_stack;
        let (mut instructions, environment) = match semantic_stack.pop() {
            None => {
                return Ok(ExecutionResult { state: ThreadState::Ready, semantic_stack });
            },
            Some(frame) => (frame.0, frame.1),
        };
        let ghost pending = instructions_view(instructions);
        if instructions.len() > 1 {
            let rest = instructions.split_off(1);
            proof {
                assert(instructions_view(rest) =~= pending.skip(1));
                assert(instructions_view(instructions) =~= pending.take(1));
            }
            semantic_stack.push(SemanticInstruction(rest, environment.clone()));
            semantic_stack.push(SemanticInstruction(instructions, environment));
            return Ok(ExecutionResult { state: ThreadState::Ready, semantic_stack });
        }
        let instruction = match instructions.pop() {
            None => {
                return Ok(ExecutionResult { state: ThreadState::Ready, semantic_stack });
            },
            Some(instruction) => instruction,
        };
        assert(instruction@ == pending[0]);
        match instruction {
            VmInstruction::Thread(body) => {
                self.spawn(body, environment);
            },
            VmInstruction::Local(names, body) => {
                match self.open_scope(&names, &environment) {
                    Err(error) => {
                        return Err(error);
                    },
                    Ok(scope) => {
                        semantic_stack.push(SemanticInstruction(body, scope));
                    },
                }
            },
            VmInstruction::Assign(name, value) => {
                match self.assign(&name, value, &environment) {
                    Err(error) => {
                        return Err(error);
                    },
                    Ok(()) => {},
                }
            },
            VmInstruction::AssignAdd(target, lhs, rhs) => {
                match self.assign_add(&target, &lhs, &rhs, &environment) {
                    Err(error) => {
                        return Err(error);
                    },
                    Ok(true) => {},
                    Ok(false) => {
                        instructions.push(VmInstruction::AssignAdd(target, lhs, rhs));
                        assert(instructions_view(instructions) =~= pending);
                        semantic_stack.push(SemanticInstruction(instructions, environment));
                        assert(semantic_stack@ =~= stack);
                        return Ok(ExecutionResult { state: ThreadState::Blocked, semantic_stack });
                    },
                }
            },
            VmInstruction::Print(name) => {
                match self.print(&name, &environment) {
                    Err(error) => {
                        return Err(error);
                    },
                    Ok(()) => {},
                }
            },
        }
        Ok(ExecutionResult { state: ThreadState::Ready, semantic_stack })
    }

    /// Whether a step of `semantic_stack` would leave its thread blocked:
    /// an `AssignAdd` is next, and one of its operands is unbound.
    fn would_block(&self, semantic_stack: &SemanticStack) -> (blocking: bool)
        ensures
            blocking == (step(self@, semantic_stack@) matches Ok(after) && after.state
                == ThreadState::Blocked),
    {
        let frames = semantic_stack.0.len();
        if frames == 0 {
            return false;
        }
        let frame = &semantic_stack.0[frames - 1];
        assert(frame@ == semantic_stack@.last());
        if frame.0.len() != 1 {
            return false;
        }
        assert(frame.0@[0]@ == frame@.instructions[0]);
        match &frame.0[0] {
            VmInstruction::AssignAdd(target, lhs, rhs) => {
                match (frame.1.lookup(lhs), frame.1.lookup(rhs), frame.1.lookup(target)) {
                    (Some(left), Some(right), Some(_)) => {
                        match (self.memory.read(left), self.memory.read(right)) {
                            (Some(a), Some(b)) => !a.is_bound() || !b.is_bound(),
                            _ => false,
                        }
                    },
                    _ => false,
                }
            },
            _ => false,
        }
    }

    /// Takes one scheduling turn. Of the threads that do not wait for an
    /// unbound variable, the one with the lowest priority number, and
    /// among equals the one longest in the pool, takes one reduction step;
    /// it then goes to the end of the pool with its priority number one
    /// higher, or leaves the pool if it has nothing left to do.
    ///
    /// Says whether a thread ran: none does when the pool is empty. If
    /// threads remain and all of them wait, `Deadlock` is reported. After
    /// any report the machine is as it was.
    pub fn turn(&mut self) -> (outcome: Result<bool, VmError>)
        ensures
            match machine::turn(old(self)@) {
                Ok(Some(after)) => outcome == Ok::<bool, VmError>(true) && final(self)@ == after,
                Ok(None) => outcome == Ok::<bool, VmError>(false) && final(self)@ == old(self)@,
                Err(error) => outcome == Err::<bool, VmError>(error) && final(self)@ == old(self)@,
            },
    {
        let count = self.threads.len();
        if count == 0 {
            return Ok(false);
        }
        let mut best: Option<usize> = None;
        let mut i: usize = 0;
        while i < count
            invariant
                i <= count,
                count == self.threads.len(),
                count == self@.threads.len(),
                *self == *old(self),
                match best {
                    Some(b) => b < i && !waits(self@, self@.threads[b as int]) && forall|j: int|
                        0 <= j < i && j != b && !waits(self@, #[trigger] self@.threads[j])
                            ==> precedes(self@.threads, b as int, j),
                    None => forall|j: int| 0 <= j < i ==> waits(self@, #[trigger] self@.threads[j]),
                },
            decreases count - i,
        {
            let thread = &self.threads[i];
            assert(thread@ == self@.threads[i as int]);
            let waiting = match thread.state() {
                ThreadState::Blocked => self.would_block(thread.semantic_stack()),
                ThreadState::Ready => false,
            };
            if !waiting {
                match best {
                    None => {
                        best = Some(i);
                    },
                    Some(b) => {
                        assert(self.threads@[b as int]@ == self@.threads[b as int]);
                        if thread.priority() < self.threads[b].priority() {
                            best = Some(i);
                        }
                    },
                }
            }
            i += 1;
        }
        let chosen = match best {
            None => {
                return Err(VmError::Deadlock);
            },
            Some(b) => b,
        };
        proof {
            assert(runs_next(self@, chosen as int));
            let picked = choose|i: int| runs_next(self@, i);
            lemma_runs_next_is_unique(self@, chosen as int, picked);
        }
        assert(self.threads@[chosen as int]@ == self@.threads[chosen as int]);
        let stack = self.threads[chosen].semantic_stack().clone();
        let result = match self.execute(stack) {
            Err(error) => {
                return Err(error);
            },
            Ok(result) => result,
        };
        let ghost stepped = self@;
        assert(self.threads@[chosen as int]@ == stepped.threads[chosen as int]);
        let thread = self.threads.remove(chosen);
        assert(self@.threads =~= stepped.threads.remove(chosen as int));
        if !result.semantic_stack.is_empty() {
            let priority = thread.priority().saturating_add(1);
            let ghost others = self@.threads;
            let ghost back = ThreadView {
                id: thread@.id,
                priority,
                state: result.state,
                stack: result.semantic_stack@,
            };
            self.threads.push(thread.with(priority, result.state, result.semantic_stack));
            assert(self@.threads =~= others.push(back));
        }
        Ok(true)
    }

    /// Runs the machine: turn after turn, until the pool is empty or a
    /// turn is refused. The machine is then where the last turn that was
    /// taken left it.
    ///
    /// Every run ends. One that ends in `Ok` has emptied the pool. One
    /// that ends in `Deadlock` has left threads in the pool, each of which
    /// waits for a variable that no thread is left to bind. Any other
    /// report marks a malformed program, met in the turn that would have
    /// come next.
    pub fn run(&mut self) -> (outcome: Result<(), VmError>)
        ensures
            exists|turns: nat| final(self)@ == after_turns(old(self)@, turns),
            match machine::turn(final(self)@) {
                Ok(Some(_)) => false,
                Ok(None) => outcome == Ok::<(), VmError>(()),
                Err(error) => outcome == Err::<(), VmError>(error),
            },
            outcome is Ok <==> final(self)@.threads.len() == 0,
    {
        let ghost mut turns: nat = 0;
        loop
            invariant
                self@ == after_turns(old(self)@, turns),
            decreases pool_weight(self@.threads), ready_count(self@.threads),
        {
            let ghost before = self@;
            match self.turn() {
                Err(error) => {
                    return Err(error);
                },
                Ok(false) => {
                    return Ok(());
                },
                Ok(true) => {
                    proof {
                        lemma_turn_makes_progress(before);
                        assert(self@ == advance(before));
                        turns = turns + 1;
                    }
                },
            }
        }
    }

    /// The store of this machine.
    pub fn memory(&self) -> (memory: &SingleAssignmentMemory)
        ensures
            memory@ == self@.memory,
    {
        &self.memory
    }

    /// The threads in the pool, in the order in which they entered it.
    pub fn threads(&self) -> (threads: &Vec<Thread>)
        ensures
            threads.deep_view() == self@.threads,
    {
        &self.threads
    }

    /// What `Print` has reported so far, oldest first: for each report
    /// the identifier and what its variable held, which is the mark
    /// `Unbound` where it was not bound yet.
    pub fn output(&self) -> (output: &Vec<(Identifier, Value)>)
        ensures
            output_view(output@) == self@.output,
    {
        &self.output
    }

    /// The contents of the store: each allocated variable once, with a
    /// copy of what it holds. The order of the list is not fixed.
    pub fn show_memory(&self) -> (contents: Vec<(Variable, Value)>)
        ensures
            forall|i: int|
                0 <= i < contents@.len() ==> self@.memory.contains_key(#[trigger] contents@[i].0)
                    && contents@[i].1@ == self@.memory[contents@[i].0],
            forall|variable: Variable|
                self@.memory.contains_key(variable) ==> exists|i: int|
                    0 <= i < contents@.len() && #[trigger] contents@[i].0 == variable,
            forall|i: int, j: int|
                0 <= i < j < contents@.len() ==> contents@[i].0 != contents@[j].0,
    {
        self.memory.show_memory()
    }
}

} // verus!
