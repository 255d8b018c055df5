use vstd::prelude::*;
use crate::error::VmError;
use crate::instruction::InstructionView;
use crate::semantics::FrameView;
use crate::single_assignment_memory::{store_bind, ValueView};
use crate::thread::{ThreadState, ThreadView};
use crate::variable::Variable;

verus! {

/// What the machine is at one moment.
pub struct VmView {
    /// What each allocated variable holds.
    pub memory: Map<Variable, ValueView>,
    /// The pool of threads, in the order in which they entered it.
    pub threads: Seq<ThreadView>,
    /// How many variables the machine has made.
    pub variables_made: u64,
    /// How many threads the machine has made.
    pub threads_made: u32,
    /// What `Print` has reported so far: a name with what its variable
    /// held, oldest first.
    pub output: Seq<(Seq<char>, ValueView)>,
}

/// What one reduction step leaves: the machine after it, and the state
/// and the continuation of the thread that took it.
pub struct StepView {
    pub machine: VmView,
    pub state: ThreadState,
    pub stack: Seq<FrameView>,
}

/// The sum of two integers as `AssignAdd` computes it: in two's
/// complement, wrapping round at the ends of the 32-bit range.
pub open spec fn wrapping_sum(lhs: i32, rhs: i32) -> i32 {
    if lhs + rhs > i32::MAX {
        (lhs + rhs - 0x1_0000_0000) as i32
    } else if lhs + rhs < i32::MIN {
        (lhs + rhs + 0x1_0000_0000) as i32
    } else {
        (lhs + rhs) as i32
    }
}

/// The variable that a machine makes `offset` variables after it has made
/// `made` of them. The numbers start at one and wrap round at the end of
/// the 64-bit range.
pub open spec fn fresh_variable(made: u64, offset: int) -> Variable {
    Variable { id: ((made + 1 + offset) % 0x1_0000_0000_0000_0000) as u64 }
}

/// Whether one of the next `count` variables is allocated already.
pub open spec fn scope_collides(memory: Map<Variable, ValueView>, made: u64, count: int) -> bool {
    exists|offset: int|
        0 <= offset < count && memory.contains_key(#[trigger] fresh_variable(made, offset))
}

/// The store with the next `count` variables allocated in it.
pub open spec fn scope_memory(memory: Map<Variable, ValueView>, made: u64, count: int) -> Map<
    Variable,
    ValueView,
> {
    Map::new(
        |variable: Variable|
            memory.contains_key(variable) || exists|offset: int|
                0 <= offset < count && variable == #[trigger] fresh_variable(made, offset),
        |variable: Variable|
            if memory.contains_key(variable) {
                memory[variable]
            } else {
                ValueView::Unbound
            },
    )
}

/// The environment in which each of `names` is bound, first to last, to
/// the next variable in turn. Where a name occurs twice its last
/// occurrence counts.
pub open spec fn scope_environment(
    environment: Map<Seq<char>, Variable>,
    names: Seq<Seq<char>>,
    made: u64,
) -> Map<Seq<char>, Variable>
    decreases names.len(),
{
    if names.len() == 0 {
        environment
    } else {
        scope_environment(environment, names.drop_last(), made).insert(
            names.last(),
            fresh_variable(made, names.len() - 1),
        )
    }
}

/// The machine after a new thread has entered the pool, ready to run
/// `stack` at `priority`. Threads are numbered from one, and the numbers
/// wrap round at the end of the 32-bit range.
pub open spec fn with_thread(machine: VmView, priority: u32, stack: Seq<FrameView>) -> VmView {
    let id = if machine.threads_made == u32::MAX {
        0u32
    } else {
        (machine.threads_made + 1) as u32
    };
    VmView {
        threads: machine.threads.push(ThreadView { id, priority, state: ThreadState::Ready, stack }),
        threads_made: id,
        ..machine
    }
}

/// The machine after the next `count` variables have been allocated, or
/// `DoubleAllocation` if one of them is allocated already.
pub open spec fn open_scope(machine: VmView, count: int) -> Result<VmView, VmError> {
    if scope_collides(machine.memory, machine.variables_made, count) {
        Err(VmError::DoubleAllocation)
    } else {
        Ok(
            VmView {
                memory: scope_memory(machine.memory, machine.variables_made, count),
                variables_made: ((machine.variables_made + count) % 0x1_0000_0000_0000_0000) as u64,
                ..machine
            },
        )
    }
}

/// The machine after `Assign(name, value)` has run under `environment`:
/// the variable of `name` is bound to `value`.
pub open spec fn assign(
    machine: VmView,
    name: Seq<char>,
    value: ValueView,
    environment: Map<Seq<char>, Variable>,
) -> Result<VmView, VmError> {
    if !environment.contains_key(name) {
        Err(VmError::UnresolvedIdentifier)
    } else {
        match store_bind(machine.memory, environment[name], value) {
            Err(error) => Err(error),
            Ok(memory) => Ok(VmView { memory, ..machine }),
        }
    }
}

/// The machine after `AssignAdd(target, lhs, rhs)` has run under
/// `environment`: the variable of `target` is bound to the sum of the
/// integers that the variables of `lhs` and `rhs` hold. While one of the
/// two is unbound there is no such machine yet: the thread has to wait.
///
/// The three names are resolved first, then the two operands are read,
/// and only values that are both bound are held to be integers.
pub open spec fn assign_add(
    machine: VmView,
    target: Seq<char>,
    lhs: Seq<char>,
    rhs: Seq<char>,
    environment: Map<Seq<char>, Variable>,
) -> Result<Option<VmView>, VmError> {
    if !environment.contains_key(lhs) || !environment.contains_key(rhs)
        || !environment.contains_key(target) {
        Err(VmError::UnresolvedIdentifier)
    } else if !machine.memory.contains_key(environment[lhs]) || !machine.memory.contains_key(
        environment[rhs],
    ) {
        Err(VmError::UnallocatedRead)
    } else {
        let left = machine.memory[environment[lhs]];
        let right = machine.memory[environment[rhs]];
        if left is Unbound || right is Unbound {
            Ok(None)
        } else {
            match (left, right) {
                (ValueView::Int(a), ValueView::Int(b)) => match store_bind(
                    machine.memory,
                    environment[target],
                    ValueView::Int(wrapping_sum(a, b)),
                ) {
                    Err(error) => Err(error),
                    Ok(memory) => Ok(Some(VmView { memory, ..machine })),
                },
                _ => Err(VmError::TypeMismatch),
            }
        }
    }
}

/// The machine after `Print(name)` has run under `environment`: the name
/// has gone to the output with what its variable holds, which may be the
/// mark `Unbound`. The store is as it was.
pub open spec fn print(
    machine: VmView,
    name: Seq<char>,
    environment: Map<Seq<char>, Variable>,
) -> Result<VmView, VmError> {
    if !environment.contains_key(name) {
        Err(VmError::UnresolvedIdentifier)
    } else if !machine.memory.contains_key(environment[name]) {
        Err(VmError::UnallocatedRead)
    } else {
        Ok(
            VmView {
                output: machine.output.push((name, machine.memory[environment[name]])),
                ..machine
            },
        )
    }
}

/// A step that leaves the thread ready.
pub open spec fn ready(machine: VmView, stack: Seq<FrameView>) -> StepView {
    StepView { machine, state: ThreadState::Ready, stack }
}

/// One reduction step of the one instruction of the frame on top of
/// `stack`, which runs under `environment`.
///
/// `Thread(body)` puts a new thread into the pool at priority 0, ready to
/// run `body` under `environment`. `Local(names, body)` allocates a fresh
/// variable for each name and pushes `body` as a frame of its own, under
/// the environment that binds the names to them. The others do their one
/// operation on the store or the output. Each leaves the continuation
/// without its frame, but for an `AssignAdd` that has to wait: it changes
/// nothing and stays where it is.
pub open spec fn step_instruction(
    machine: VmView,
    instruction: InstructionView,
    environment: Map<Seq<char>, Variable>,
    stack: Seq<FrameView>,
) -> Result<StepView, VmError> {
    let rest = stack.drop_last();
    match instruction {
        InstructionView::Thread(body) => Ok(
            ready(
                with_thread(machine, 0, seq![FrameView { instructions: body, environment }]),
                rest,
            ),
        ),
        InstructionView::Local(names, body) => match open_scope(machine, names.len() as int) {
            Err(error) => Err(error),
            Ok(after) => Ok(
                ready(
                    after,
                    rest.push(
                        FrameView {
                            instructions: body,
                            environment: scope_environment(
                                environment,
                                names,
                                machine.variables_made,
                            ),
                        },
                    ),
                ),
            ),
        },
        InstructionView::Assign(name, value) => match assign(machine, name, value, environment) {
            Err(error) => Err(error),
            Ok(after) => Ok(ready(after, rest)),
        },
        InstructionView::AssignAdd(target, lhs, rhs) => match assign_add(
            machine,
            target,
            lhs,
            rhs,
            environment,
        ) {
            Err(error) => Err(error),
            Ok(None) => Ok(StepView { machine, state: ThreadState::Blocked, stack }),
            Ok(Some(after)) => Ok(ready(after, rest)),
        },
        InstructionView::Print(name) => match print(machine, name, environment) {
            Err(error) => Err(error),
            Ok(after) => Ok(ready(after, rest)),
        },
    }
}

/// One reduction step of the continuation `stack` on `machine`, or the
/// reason why the program is malformed.
///
/// The frame on top decides. An empty continuation is left as it is, and
/// an empty frame is dropped. A frame of several instructions is split
/// into its first instruction, which runs next, and the rest, both under
/// the frame's environment. A frame of one instruction runs it.
pub open spec fn step(machine: VmView, stack: Seq<FrameView>) -> Result<StepView, VmError> {
    if stack.len() == 0 {
        Ok(ready(machine, stack))
    } else {
        let frame = stack.last();
        let rest = stack.drop_last();
        if frame.instructions.len() == 0 {
            Ok(ready(machine, rest))
        } else if frame.instructions.len() > 1 {
            Ok(
                ready(
                    machine,
                    rest.push(
                        FrameView {
                            instructions: frame.instructions.skip(1),
                            environment: frame.environment,
                        },
                    ).push(
                        FrameView {
                            instructions: frame.instructions.take(1),
                            environment: frame.environment,
                        },
                    ),
                ),
            )
        } else {
            step_instruction(machine, frame.instructions[0], frame.environment, stack)
        }
    }
}

/// Whether `thread` waits: it is blocked, and a step of it would leave
/// it blocked, for the variable it needs is still unbound.
pub open spec fn waits(machine: VmView, thread: ThreadView) -> bool {
    thread.state == ThreadState::Blocked && (step(machine, thread.stack) matches Ok(after)
        && after.state == ThreadState::Blocked)
}

/// Whether the thread at `i` comes before the one at `j`: by the lower
/// priority number, and among equals by the earlier place in the pool.
pub open spec fn precedes(threads: Seq<ThreadView>, i: int, j: int) -> bool {
    threads[i].priority < threads[j].priority || (threads[i].priority == threads[j].priority && i
        < j)
}

/// Whether the thread at `i` is the one to run: it does not wait, and it
/// comes before every other thread that does not wait.
pub open spec fn runs_next(machine: VmView, i: int) -> bool {
    &&& 0 <= i < machine.threads.len()
    &&& !waits(machine, machine.threads[i])
    &&& forall|j: int|
        0 <= j < machine.threads.len() && j != i && !waits(machine, #[trigger] machine.threads[j])
            ==> precedes(machine.threads, i, j)
}

/// The priority of a thread that has just run: one more, which puts it
/// behind its equals. At the end of the range the number stays.
pub open spec fn aged(priority: u32) -> u32 {
    if priority == u32::MAX {
        priority
    } else {
        (priority + 1) as u32
    }
}

/// The machine after the thread at `i` has taken the step `after`: the
/// thread leaves its place, and unless it has nothing left to do it goes
/// to the end of the pool, aged, in the state and with the continuation
/// that the step left.
pub open spec fn settle(after: StepView, i: int) -> VmView {
    let thread = after.machine.threads[i];
    let others = after.machine.threads.remove(i);
    VmView {
        threads: if after.stack.len() == 0 {
            others
        } else {
            others.push(
                ThreadView {
                    id: thread.id,
                    priority: aged(thread.priority),
                    state: after.state,
                    stack: after.stack,
                },
            )
        },
        ..after.machine
    }
}

/// One scheduling turn: the machine after it, nothing if the pool is
/// empty, or the reason why there is none.
///
/// Of the threads that do not wait, the one that comes first takes one
/// reduction step. A thread that waits keeps its place and its priority.
/// If every thread waits, none can ever run again: `Deadlock`. A step
/// that finds the program malformed is reported as it is.
pub open spec fn turn(machine: VmView) -> Result<Option<VmView>, VmError> {
    if machine.threads.len() == 0 {
        Ok(None)
    } else if forall|i: int|
        0 <= i < machine.threads.len() ==> waits(machine, #[trigger] machine.threads[i]) {
        Err(VmError::Deadlock)
    } else {
        let i = choose|i: int| runs_next(machine, i);
        match step(machine, machine.threads[i].stack) {
            Err(error) => Err(error),
            Ok(after) => Ok(Some(settle(after, i))),
        }
    }
}

/// The machine one turn on, or as it is if it takes no further turn.
pub open spec fn advance(machine: VmView) -> VmView {
    match turn(machine) {
        Ok(Some(after)) => after,
        _ => machine,
    }
}

/// The machine `turns` turns on.
pub open spec fn after_turns(machine: VmView, turns: nat) -> VmView
    decreases turns,
{
    if turns == 0 {
        machine
    } else {
        advance(after_turns(machine, (turns - 1) as nat))
    }
}

/// At most one thread is the one to run.
pub proof fn lemma_runs_next_is_unique(machine: VmView, i: int, j: int)
    requires
        runs_next(machine, i),
        runs_next(machine, j),
    ensures
        i == j,
{
}

/// Blocking is no failure and leaves no trace: where the next instruction
/// of a continuation is an `AssignAdd` whose names all resolve and whose
/// operands are both allocated, and one operand is unbound, the step is
/// taken without a report, the thread is left blocked, its continuation
/// is as it was, with the instruction still in it, and the machine, its
/// store included, is as it was.
pub proof fn lemma_blocking_changes_nothing(
    machine: VmView,
    stack: Seq<FrameView>,
    target: Seq<char>,
    lhs: Seq<char>,
    rhs: Seq<char>,
)
    requires
        stack.len() > 0,
        stack.last().instructions.len() == 1,
        stack.last().instructions[0] == InstructionView::AssignAdd(target, lhs, rhs),
        stack.last().environment.contains_key(target),
        stack.last().environment.contains_key(lhs),
        stack.last().environment.contains_key(rhs),
        machine.memory.contains_key(stack.last().environment[lhs]),
        machine.memory.contains_key(stack.last().environment[rhs]),
        machine.memory[stack.last().environment[lhs]] is Unbound
            || machine.memory[stack.last().environment[rhs]] is Unbound,
    ensures
        step(machine, stack) == Ok::<StepView, VmError>(
            StepView { machine, state: ThreadState::Blocked, stack },
        ),
{
}

/// Only an `AssignAdd` blocks, and only on an unbound operand: a step
/// that leaves its thread blocked has found that instruction next, with
/// one of its operands allocated and unbound.
pub proof fn lemma_blocked_on_unbound(machine: VmView, stack: Seq<FrameView>)
    requires
        step(machine, stack) matches Ok(after) && after.state == ThreadState::Blocked,
    ensures
        stack.len() > 0,
        stack.last().instructions.len() == 1,
        stack.last().instructions[0] matches InstructionView::AssignAdd(_, lhs, rhs) && ({
            let left = stack.last().environment[lhs];
            let right = stack.last().environment[rhs];
            (machine.memory.contains_key(left) && machine.memory[left] is Unbound) || (
            machine.memory.contains_key(right) && machine.memory[right] is Unbound)
        }),
{
}

/// An `AssignAdd` whose operands are both bound does not block: a
/// thread that was blocked on it waits no longer once the variable it
/// needed has been bound.
pub proof fn lemma_bound_operands_release(machine: VmView, thread: ThreadView)
    requires
        thread.stack.len() > 0,
        thread.stack.last().instructions.len() == 1,
        thread.stack.last().instructions[0] matches InstructionView::AssignAdd(_, lhs, rhs) && ({
            let left = thread.stack.last().environment[lhs];
            let right = thread.stack.last().environment[rhs];
            !(machine.memory[left] is Unbound) && !(machine.memory[right] is Unbound)
        }),
    ensures
        !waits(machine, thread),
{
}

/// `Deadlock` means what it says: a turn is refused with it exactly when
/// threads remain and every one of them waits.
pub proof fn lemma_deadlock_is_all_waiting(machine: VmView)
    ensures
        turn(machine) == Err::<Option<VmView>, VmError>(VmError::Deadlock) <==> (
        machine.threads.len() > 0 && forall|i: int|
            0 <= i < machine.threads.len() ==> waits(machine, #[trigger] machine.threads[i])),
{
    if machine.threads.len() > 0 && !(forall|i: int|
        0 <= i < machine.threads.len() ==> waits(machine, #[trigger] machine.threads[i])) {
        let i = choose|i: int| runs_next(machine, i);
        lemma_step_never_deadlocks(machine, machine.threads[i].stack);
    }
}

/// No reduction step is refused with `Deadlock`.
pub proof fn lemma_step_never_deadlocks(machine: VmView, stack: Seq<FrameView>)
    ensures
        step(machine, stack) != Err::<StepView, VmError>(VmError::Deadlock),
{
}

} // verus!
