use vstd::prelude::*;
use crate::instruction::InstructionView;
use crate::machine::{runs_next, settle, step, turn, waits, StepView, VmView};
use crate::semantics::FrameView;
use crate::thread::{ThreadState, ThreadView};

verus! {

/// The steps that an instruction can still cause once it has run: those
/// of the body that it pushes or hands to a new thread, and one for the
/// end of that thread.
pub open spec fn instruction_weight(instruction: InstructionView) -> nat
    decreases instruction, 0nat,
{
    match instruction {
        InstructionView::Thread(body) => sequence_weight(body) + 1,
        InstructionView::Local(_, body) => sequence_weight(body),
        _ => 0,
    }
}

/// The weight of the first `count` instructions of a sequence: for each
/// its own, one for the step that runs it and one for the split that
/// sets it apart.
pub open spec fn prefix_weight(instructions: Seq<InstructionView>, count: nat) -> nat
    decreases instructions, count,
{
    if count == 0 || count > instructions.len() {
        0
    } else {
        prefix_weight(instructions, (count - 1) as nat) + instruction_weight(
            instructions[count - 1],
        ) + 2
    }
}

/// A bound on the steps that a frame with these instructions can cause.
/// An empty frame takes one step, which drops it.
pub open spec fn sequence_weight(instructions: Seq<InstructionView>) -> nat
    decreases instructions, instructions.len() + 1,
{
    if instructions.len() == 0 {
        1
    } else {
        (prefix_weight(instructions, instructions.len()) - 1) as nat
    }
}

/// A bound on the steps that a continuation can cause.
pub open spec fn stack_weight(stack: Seq<FrameView>) -> nat
    decreases stack.len(),
{
    if stack.len() == 0 {
        0
    } else {
        stack_weight(stack.drop_last()) + sequence_weight(stack.last().instructions)
    }
}

/// A bound on the turns that a pool of threads can take without one of
/// them blocking: for each thread those of its continuation, and one
/// more, in which it leaves.
pub open spec fn pool_weight(threads: Seq<ThreadView>) -> nat
    decreases threads.len(),
{
    if threads.len() == 0 {
        0
    } else {
        pool_weight(threads.drop_last()) + stack_weight(threads.last().stack) + 1
    }
}

/// How many threads of a pool are ready.
pub open spec fn ready_count(threads: Seq<ThreadView>) -> nat
    decreases threads.len(),
{
    if threads.len() == 0 {
        0
    } else {
        ready_count(threads.drop_last()) + if threads.last().state == ThreadState::Ready {
            1nat
        } else {
            0nat
        }
    }
}

/// The weight of a prefix does not depend on what follows it.
proof fn lemma_prefix_weight_of_tail(instructions: Seq<InstructionView>, count: nat)
    requires
        0 < instructions.len(),
        count < instructions.len(),
    ensures
        prefix_weight(instructions, count + 1) == prefix_weight(instructions.skip(1), count)
            + instruction_weight(instructions[0]) + 2,
    decreases count,
{
    let tail = instructions.skip(1);
    assert(prefix_weight(instructions, count + 1) == prefix_weight(instructions, count)
        + instruction_weight(instructions[count as int]) + 2);
    if count > 0 {
        lemma_prefix_weight_of_tail(instructions, (count - 1) as nat);
        assert(tail[count - 1] == instructions[count as int]);
        assert(prefix_weight(tail, count) == prefix_weight(tail, (count - 1) as nat)
            + instruction_weight(tail[count - 1]) + 2);
    } else {
        assert(prefix_weight(instructions, 0) == 0);
        assert(prefix_weight(tail, 0) == 0);
    }
}

/// A sequence weighs one more than its first instruction and the rest of
/// it, each in a frame of its own: that one is the step that splits it.
pub proof fn lemma_split_weight(instructions: Seq<InstructionView>)
    requires
        instructions.len() > 1,
    ensures
        sequence_weight(instructions) == sequence_weight(instructions.take(1)) + sequence_weight(
            instructions.skip(1),
        ) + 1,
{
    let head = instructions.take(1);
    let tail = instructions.skip(1);
    lemma_prefix_weight_of_tail(instructions, (instructions.len() - 1) as nat);
    assert(head[0] == instructions[0]);
    assert(prefix_weight(head, 1) == prefix_weight(head, 0) + instruction_weight(head[0]) + 2);
    assert(prefix_weight(head, 0) == 0);
}

/// A frame of one instruction weighs one more than the instruction.
pub proof fn lemma_single_weight(instructions: Seq<InstructionView>)
    requires
        instructions.len() == 1,
    ensures
        sequence_weight(instructions) == instruction_weight(instructions[0]) + 1,
{
    assert(prefix_weight(instructions, 1) == prefix_weight(instructions, 0) + instruction_weight(
        instructions[0],
    ) + 2);
    assert(prefix_weight(instructions, 0) == 0);
}

/// A continuation with one more frame weighs that frame more.
pub proof fn lemma_stack_weight_push(stack: Seq<FrameView>, frame: FrameView)
    ensures
        stack_weight(stack.push(frame)) == stack_weight(stack) + sequence_weight(
            frame.instructions,
        ),
{
    assert(stack.push(frame).drop_last() =~= stack);
}

/// A pool with one more thread weighs that thread more.
pub proof fn lemma_pool_push(threads: Seq<ThreadView>, thread: ThreadView)
    ensures
        pool_weight(threads.push(thread)) == pool_weight(threads) + stack_weight(thread.stack) + 1,
        ready_count(threads.push(thread)) == ready_count(threads) + if thread.state
            == ThreadState::Ready {
            1nat
        } else {
            0nat
        },
{
    assert(threads.push(thread).drop_last() =~= threads);
}

/// A pool without one of its threads weighs that thread less.
pub proof fn lemma_pool_remove(threads: Seq<ThreadView>, i: int)
    requires
        0 <= i < threads.len(),
    ensures
        pool_weight(threads.remove(i)) + stack_weight(threads[i].stack) + 1 == pool_weight(threads),
        ready_count(threads.remove(i)) + (if threads[i].state == ThreadState::Ready {
            1nat
        } else {
            0nat
        }) == ready_count(threads),
    decreases threads.len(),
{
    if i == threads.len() - 1 {
        assert(threads.remove(i) =~= threads.drop_last());
    } else {
        lemma_pool_remove(threads.drop_last(), i);
        assert(threads.remove(i).drop_last() =~= threads.drop_last().remove(i));
        assert(threads.remove(i).last() == threads.last());
    }
}

/// What a step does to the weights. A step that blocks changes nothing.
/// Any other step of a continuation that is not empty takes at least one
/// from the weight of the pool and the continuation together. The threads
/// that were in the pool stay as they were, in their places.
pub proof fn lemma_step_weight(machine: VmView, stack: Seq<FrameView>)
    requires
        step(machine, stack) is Ok,
    ensures
        ({
            let after = step(machine, stack)->Ok_0;
            &&& machine.threads.len() <= after.machine.threads.len()
            &&& forall|i: int|
                0 <= i < machine.threads.len() ==> after.machine.threads[i] == machine.threads[i]
            &&& after.state == ThreadState::Blocked ==> after.machine == machine && after.stack
                == stack && stack.len() > 0
            &&& stack.len() == 0 ==> after.machine == machine && after.stack == stack
            &&& after.state == ThreadState::Ready && stack.len() > 0 ==> pool_weight(
                after.machine.threads,
            ) + stack_weight(after.stack) + 1 <= pool_weight(machine.threads) + stack_weight(stack)
        }),
{
    let after = step(machine, stack)->Ok_0;
    if stack.len() > 0 {
        let frame = stack.last();
        let rest = stack.drop_last();
        let pending = frame.instructions;
        if pending.len() == 0 {
        } else if pending.len() > 1 {
            lemma_split_weight(pending);
            let tail = FrameView { instructions: pending.skip(1), environment: frame.environment };
            let head = FrameView { instructions: pending.take(1), environment: frame.environment };
            lemma_stack_weight_push(rest, tail);
            lemma_stack_weight_push(rest.push(tail), head);
        } else {
            lemma_single_weight(pending);
            match pending[0] {
                InstructionView::Thread(body) => {
                    let first = FrameView { instructions: body, environment: frame.environment };
                    let spawned = seq![first];
                    assert(spawned =~= Seq::<FrameView>::empty().push(first));
                    lemma_stack_weight_push(Seq::<FrameView>::empty(), first);
                    assert(stack_weight(Seq::<FrameView>::empty()) == 0);
                    assert(stack_weight(spawned) == sequence_weight(body));
                    let thread = after.machine.threads.last();
                    lemma_pool_push(machine.threads, thread);
                },
                InstructionView::Local(names, body) => {
                    let pushed = after.stack.last();
                    lemma_stack_weight_push(rest, pushed);
                },
                _ => {},
            }
        }
    }
}

/// Every turn that a machine takes brings it nearer to its last: either
/// the pool weighs less after it, or it weighs the same and one thread
/// fewer is ready.
pub proof fn lemma_turn_makes_progress(machine: VmView)
    requires
        turn(machine) matches Ok(Some(_)),
    ensures
        ({
            let after = turn(machine)->Ok_0->Some_0;
            pool_weight(after.threads) < pool_weight(machine.threads) || (pool_weight(after.threads)
                == pool_weight(machine.threads) && ready_count(after.threads) < ready_count(
                machine.threads,
            ))
        }),
{
    lemma_someone_runs_next(machine, machine.threads.len() as int);
    let i = choose|i: int| runs_next(machine, i);
    assert(runs_next(machine, i));
    let thread = machine.threads[i];
    let stepped = step(machine, thread.stack)->Ok_0;
    lemma_step_weight(machine, thread.stack);
    lemma_pool_remove(stepped.machine.threads, i);
    lemma_pool_remove(machine.threads, i);
    let others = stepped.machine.threads.remove(i);
    if stepped.stack.len() > 0 {
        let back = ThreadView {
            id: thread.id,
            priority: crate::machine::aged(thread.priority),
            state: stepped.state,
            stack: stepped.stack,
        };
        lemma_pool_push(others, back);
    }
}

/// Among the first `count` threads of a pool, if one does not wait then
/// one of those that do not wait comes before the others.
pub open spec fn leads(machine: VmView, count: int, i: int) -> bool {
    &&& 0 <= i < count
    &&& !waits(machine, machine.threads[i])
    &&& forall|j: int|
        0 <= j < count && j != i && !waits(machine, #[trigger] machine.threads[j]) ==> crate::machine::precedes(
            machine.threads,
            i,
            j,
        )
}

/// Where a thread of the pool does not wait, one thread is the one to
/// run.
pub proof fn lemma_someone_runs_next(machine: VmView, count: int)
    requires
        0 <= count <= machine.threads.len(),
        exists|i: int| 0 <= i < count && !waits(machine, #[trigger] machine.threads[i]),
    ensures
        exists|i: int| leads(machine, count, i),
        count == machine.threads.len() ==> exists|i: int| runs_next(machine, i),
    decreases count,
{
    let last = count - 1;
    if exists|i: int| 0 <= i < last && !waits(machine, #[trigger] machine.threads[i]) {
        lemma_someone_runs_next(machine, last);
        let before = choose|i: int| leads(machine, last, i);
        if !waits(machine, machine.threads[last]) && machine.threads[last].priority
            < machine.threads[before].priority {
            assert(leads(machine, count, last));
        } else {
            assert(leads(machine, count, before));
        }
    } else {
        assert(leads(machine, count, last));
    }
    if count == machine.threads.len() {
        let i = choose|i: int| leads(machine, count, i);
        assert(runs_next(machine, i));
    }
}

} // verus!
