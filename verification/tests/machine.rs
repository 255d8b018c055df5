use dataflow_vm::environment::Environment;
use dataflow_vm::error::VmError;
use dataflow_vm::identifier::Identifier;
use dataflow_vm::instruction::VmInstruction;
use dataflow_vm::semantics::{SemanticInstruction, SemanticStack};
use dataflow_vm::single_assignment_memory::Value;
use dataflow_vm::thread::ThreadState;
use dataflow_vm::variable::Variable;
use dataflow_vm::vm::Vm;

fn id(name: &str) -> Identifier {
    Identifier::new(name.to_string())
}

fn program(instructions: Vec<VmInstruction>) -> SemanticStack {
    SemanticStack(vec![SemanticInstruction(instructions, Environment::new())])
}

fn held(vm: &Vm, number: u64) -> Option<Value> {
    vm.memory().read(&Variable::new(number)).cloned()
}

fn sum_in_one_scope() -> SemanticStack {
    program(vec![VmInstruction::Local(
        vec![id("X"), id("Y"), id("Z")],
        vec![
            VmInstruction::Assign(id("X"), Value::Int(10)),
            VmInstruction::Assign(id("Y"), Value::Int(20)),
            VmInstruction::AssignAdd(id("Z"), id("X"), id("Y")),
            VmInstruction::Print(id("X")),
            VmInstruction::Print(id("Y")),
            VmInstruction::Print(id("Z")),
        ],
    )])
}

fn sum_in_a_spawned_thread() -> SemanticStack {
    program(vec![VmInstruction::Local(
        vec![id("X"), id("Y"), id("Z")],
        vec![
            VmInstruction::Assign(id("X"), Value::Int(10)),
            VmInstruction::Thread(vec![
                VmInstruction::AssignAdd(id("Z"), id("X"), id("Y")),
                VmInstruction::Print(id("Z")),
            ]),
            VmInstruction::Assign(id("Y"), Value::Int(20)),
        ],
    )])
}

fn spawn_then_bind_both() -> SemanticStack {
    program(vec![VmInstruction::Local(
        vec![id("X"), id("Y"), id("Z")],
        vec![
            VmInstruction::Thread(vec![VmInstruction::AssignAdd(id("Z"), id("X"), id("Y"))]),
            VmInstruction::Assign(id("X"), Value::Int(4)),
            VmInstruction::Assign(id("Y"), Value::Int(38)),
        ],
    )])
}

/// Runs `stack` turn by turn at `priority`, checks at every turn that Z is
/// not bound before Y, and says whether a thread was seen blocked.
fn run_watching_z(stack: SemanticStack, priority: u32) -> (Vm, bool) {
    let mut vm = Vm::new();
    vm.create_thread(priority, stack);
    let mut seen_blocked = false;
    let mut turns = 0;
    loop {
        let y_bound = matches!(held(&vm, 2), Some(value) if value.is_bound());
        let z_bound = matches!(held(&vm, 3), Some(value) if value.is_bound());
        assert!(y_bound || !z_bound);
        if vm.threads().iter().any(|thread| thread.state() == ThreadState::Blocked) {
            assert!(!z_bound);
            seen_blocked = true;
        }
        match vm.turn() {
            Ok(true) => {}
            Ok(false) => break,
            Err(error) => panic!("turn refused: {:?}", error),
        }
        turns += 1;
        assert!(turns < 1000);
    }
    (vm, seen_blocked)
}

#[test]
fn new_machine_is_empty() {
    let vm = Vm::new();
    assert!(vm.threads().is_empty());
    assert!(vm.output().is_empty());
    assert!(vm.show_memory().is_empty());
}

#[test]
fn run_of_an_empty_pool_does_nothing() {
    let mut vm = Vm::new();
    assert_eq!(vm.turn(), Ok(false));
    assert_eq!(vm.run(), Ok(()));
    assert!(vm.show_memory().is_empty());
}

#[test]
fn create_thread_numbers_threads_from_one() {
    let mut vm = Vm::new();
    vm.create_thread(3, program(vec![]));
    vm.create_thread(1, program(vec![]));
    let threads = vm.threads();
    assert_eq!(threads.len(), 2);
    assert_eq!(threads[0].id(), 1);
    assert_eq!(threads[0].priority(), 3);
    assert_eq!(threads[0].state(), ThreadState::Ready);
    assert_eq!(threads[1].id(), 2);
    assert_eq!(threads[1].priority(), 1);
    assert_eq!(threads[1].semantic_stack(), &program(vec![]));
}

#[test]
fn sum_in_one_scope_binds_and_prints() {
    let mut vm = Vm::new();
    vm.create_thread(0, sum_in_one_scope());
    assert_eq!(vm.run(), Ok(()));
    assert_eq!(held(&vm, 1), Some(Value::Int(10)));
    assert_eq!(held(&vm, 2), Some(Value::Int(20)));
    assert_eq!(held(&vm, 3), Some(Value::Int(30)));
    assert_eq!(
        vm.output(),
        &vec![
            (id("X"), Value::Int(10)),
            (id("Y"), Value::Int(20)),
            (id("Z"), Value::Int(30)),
        ]
    );
    let mut contents = vm.show_memory();
    contents.sort_by_key(|entry| entry.0.id());
    assert_eq!(
        contents,
        vec![
            (Variable::new(1), Value::Int(10)),
            (Variable::new(2), Value::Int(20)),
            (Variable::new(3), Value::Int(30)),
        ]
    );
    assert!(vm.threads().is_empty());
}

#[test]
fn spawned_sum_waits_for_its_operand_at_priority_zero() {
    let (vm, seen_blocked) = run_watching_z(sum_in_a_spawned_thread(), 0);
    assert!(seen_blocked);
    assert_eq!(held(&vm, 1), Some(Value::Int(10)));
    assert_eq!(held(&vm, 2), Some(Value::Int(20)));
    assert_eq!(held(&vm, 3), Some(Value::Int(30)));
    assert_eq!(vm.output(), &vec![(id("Z"), Value::Int(30))]);
}

#[test]
fn spawned_sum_waits_for_its_operand_at_priority_seven() {
    let (vm, seen_blocked) = run_watching_z(sum_in_a_spawned_thread(), 7);
    assert!(seen_blocked);
    assert_eq!(held(&vm, 3), Some(Value::Int(30)));
    assert_eq!(vm.output(), &vec![(id("Z"), Value::Int(30))]);
}

#[test]
fn spawned_sum_waits_for_its_operand_at_the_highest_priority_number() {
    let (vm, seen_blocked) = run_watching_z(sum_in_a_spawned_thread(), u32::MAX);
    assert!(seen_blocked);
    assert_eq!(held(&vm, 3), Some(Value::Int(30)));
}

#[test]
fn spawned_sum_is_bound_in_the_end_whatever_the_priority() {
    for priority in [0, 1, 2, 3, 5, 100, u32::MAX - 1, u32::MAX] {
        let mut vm = Vm::new();
        vm.create_thread(priority, spawn_then_bind_both());
        assert_eq!(vm.run(), Ok(()));
        assert_eq!(held(&vm, 1), Some(Value::Int(4)));
        assert_eq!(held(&vm, 2), Some(Value::Int(38)));
        assert_eq!(held(&vm, 3), Some(Value::Int(42)));
        assert!(vm.threads().is_empty());
    }
}

#[test]
fn spawned_sum_is_bound_in_the_end_beside_other_threads() {
    let mut vm = Vm::new();
    vm.create_thread(2, program(vec![VmInstruction::Local(vec![id("A")], vec![])]));
    vm.create_thread(9, spawn_then_bind_both());
    vm.create_thread(0, program(vec![VmInstruction::Local(vec![id("B")], vec![])]));
    assert_eq!(vm.run(), Ok(()));
    let bound: Vec<Value> = vm
        .show_memory()
        .into_iter()
        .map(|entry| entry.1)
        .filter(|value| value.is_bound())
        .collect();
    assert_eq!(bound.len(), 3);
    assert!(bound.contains(&Value::Int(42)));
}

#[test]
fn second_assign_reports_double_bind_and_keeps_the_first_value() {
    let mut vm = Vm::new();
    vm.create_thread(
        0,
        program(vec![VmInstruction::Local(
            vec![id("X")],
            vec![
                VmInstruction::Assign(id("X"), Value::Int(1)),
                VmInstruction::Assign(id("X"), Value::Int(2)),
            ],
        )]),
    );
    assert_eq!(vm.run(), Err(VmError::DoubleBind));
    assert_eq!(held(&vm, 1), Some(Value::Int(1)));
    assert_eq!(vm.run(), Err(VmError::DoubleBind));
    assert_eq!(held(&vm, 1), Some(Value::Int(1)));
    assert_eq!(vm.threads().len(), 1);
}

#[test]
fn record_bound_by_assign_is_read_back() {
    let record = Value::Record(vec![
        ("kind".to_string(), Value::Atom("point".to_string())),
        (
            "at".to_string(),
            Value::Record(vec![
                ("x".to_string(), Value::Atom("left".to_string())),
                ("y".to_string(), Value::Int(3)),
            ]),
        ),
    ]);
    let mut vm = Vm::new();
    vm.create_thread(
        0,
        program(vec![VmInstruction::Local(
            vec![id("R")],
            vec![
                VmInstruction::Assign(id("R"), record.clone()),
                VmInstruction::Print(id("R")),
            ],
        )]),
    );
    assert_eq!(vm.run(), Ok(()));
    assert_eq!(vm.memory().read(&Variable::new(1)), Some(&record));
    assert_eq!(vm.output(), &vec![(id("R"), record)]);
}

#[test]
fn closure_bound_by_assign_is_read_back() {
    let closure = Value::Proc(
        vec![id("A"), id("B")],
        vec![VmInstruction::AssignAdd(id("C"), id("A"), id("B"))],
        Environment::new().adjoint(&id("C"), Variable::new(1)),
    );
    let mut vm = Vm::new();
    vm.create_thread(
        0,
        program(vec![VmInstruction::Local(
            vec![id("C"), id("P")],
            vec![VmInstruction::Assign(id("P"), closure.clone())],
        )]),
    );
    assert_eq!(vm.run(), Ok(()));
    assert_eq!(held(&vm, 1), Some(Value::Unbound));
    assert_eq!(held(&vm, 2), Some(closure));
}

#[test]
fn print_of_an_unbound_variable_reports_the_mark() {
    let mut vm = Vm::new();
    vm.create_thread(
        0,
        program(vec![VmInstruction::Local(
            vec![id("X")],
            vec![VmInstruction::Print(id("X"))],
        )]),
    );
    assert_eq!(vm.run(), Ok(()));
    assert_eq!(vm.output(), &vec![(id("X"), Value::Unbound)]);
    assert_eq!(held(&vm, 1), Some(Value::Unbound));
}

#[test]
fn sum_wraps_round_at_the_ends_of_the_range() {
    let mut vm = Vm::new();
    vm.create_thread(
        0,
        program(vec![VmInstruction::Local(
            vec![id("A"), id("B"), id("C"), id("D"), id("E")],
            vec![
                VmInstruction::Assign(id("A"), Value::Int(i32::MAX)),
                VmInstruction::Assign(id("B"), Value::Int(1)),
                VmInstruction::AssignAdd(id("C"), id("A"), id("B")),
                VmInstruction::Assign(id("D"), Value::Int(-2)),
                VmInstruction::AssignAdd(id("E"), id("C"), id("D")),
            ],
        )]),
    );
    assert_eq!(vm.run(), Ok(()));
    assert_eq!(held(&vm, 3), Some(Value::Int(i32::MIN)));
    assert_eq!(held(&vm, 5), Some(Value::Int(i32::MAX - 1)));
}

#[test]
fn sum_of_an_atom_is_a_type_mismatch() {
    let mut vm = Vm::new();
    vm.create_thread(
        0,
        program(vec![VmInstruction::Local(
            vec![id("X"), id("Y"), id("Z")],
            vec![
                VmInstruction::Assign(id("X"), Value::Atom("one".to_string())),
                VmInstruction::Assign(id("Y"), Value::Int(2)),
                VmInstruction::AssignAdd(id("Z"), id("X"), id("Y")),
            ],
        )]),
    );
    assert_eq!(vm.run(), Err(VmError::TypeMismatch));
    assert_eq!(held(&vm, 3), Some(Value::Unbound));
}

#[test]
fn assign_to_an_unknown_identifier_is_unresolved() {
    let mut vm = Vm::new();
    vm.create_thread(0, program(vec![VmInstruction::Assign(id("X"), Value::Int(1))]));
    assert_eq!(vm.run(), Err(VmError::UnresolvedIdentifier));
    assert!(vm.show_memory().is_empty());
}

#[test]
fn print_of_an_unknown_identifier_is_unresolved() {
    let mut vm = Vm::new();
    vm.create_thread(0, program(vec![VmInstruction::Print(id("X"))]));
    assert_eq!(vm.run(), Err(VmError::UnresolvedIdentifier));
    assert!(vm.output().is_empty());
}

#[test]
fn sum_with_an_unknown_identifier_is_unresolved() {
    let mut vm = Vm::new();
    vm.create_thread(
        0,
        program(vec![VmInstruction::Local(
            vec![id("X"), id("Y")],
            vec![VmInstruction::AssignAdd(id("Z"), id("X"), id("Y"))],
        )]),
    );
    assert_eq!(vm.run(), Err(VmError::UnresolvedIdentifier));
}

#[test]
fn assign_of_the_unbound_mark_is_refused() {
    let mut vm = Vm::new();
    vm.create_thread(
        0,
        program(vec![VmInstruction::Local(
            vec![id("X")],
            vec![VmInstruction::Assign(id("X"), Value::Unbound)],
        )]),
    );
    assert_eq!(vm.run(), Err(VmError::UnboundValue));
    assert_eq!(held(&vm, 1), Some(Value::Unbound));
}

#[test]
fn assign_through_a_dangling_binding_is_an_unallocated_write() {
    let environment = Environment::new().adjoint(&id("X"), Variable::new(40));
    let mut vm = Vm::new();
    vm.create_thread(
        0,
        SemanticStack(vec![SemanticInstruction(
            vec![VmInstruction::Assign(id("X"), Value::Int(1))],
            environment,
        )]),
    );
    assert_eq!(vm.run(), Err(VmError::UnallocatedWrite));
    assert!(vm.show_memory().is_empty());
}

#[test]
fn read_through_a_dangling_binding_is_an_unallocated_read() {
    let environment = Environment::new().adjoint(&id("X"), Variable::new(40));
    let mut vm = Vm::new();
    vm.create_thread(
        0,
        SemanticStack(vec![SemanticInstruction(
            vec![VmInstruction::Print(id("X"))],
            environment.clone(),
        )]),
    );
    assert_eq!(vm.run(), Err(VmError::UnallocatedRead));
    let mut vm = Vm::new();
    vm.create_thread(
        0,
        SemanticStack(vec![SemanticInstruction(
            vec![VmInstruction::AssignAdd(id("X"), id("X"), id("X"))],
            environment,
        )]),
    );
    assert_eq!(vm.run(), Err(VmError::UnallocatedRead));
}

#[test]
fn scope_over_an_allocated_variable_is_a_double_allocation() {
    let mut vm = Vm::new();
    vm.create_thread(
        0,
        program(vec![VmInstruction::Local(vec![id("X"), id("Y")], vec![])]),
    );
    assert_eq!(vm.run(), Ok(()));
    assert_eq!(vm.show_memory().len(), 2);
    let mut memory = dataflow_vm::single_assignment_memory::SingleAssignmentMemory::new();
    assert_eq!(memory.allocate(Variable::new(1)), Ok(()));
    assert_eq!(memory.allocate(Variable::new(1)), Err(VmError::DoubleAllocation));
}

#[test]
fn sum_that_nobody_feeds_is_a_deadlock() {
    let mut vm = Vm::new();
    vm.create_thread(
        0,
        program(vec![VmInstruction::Local(
            vec![id("X"), id("Y"), id("Z")],
            vec![
                VmInstruction::Assign(id("X"), Value::Int(1)),
                VmInstruction::AssignAdd(id("Z"), id("X"), id("Y")),
                VmInstruction::Print(id("Z")),
            ],
        )]),
    );
    assert_eq!(vm.run(), Err(VmError::Deadlock));
    assert_eq!(held(&vm, 3), Some(Value::Unbound));
    assert_eq!(vm.threads().len(), 1);
    assert_eq!(vm.threads()[0].state(), ThreadState::Blocked);
    assert!(vm.output().is_empty());
    assert_eq!(vm.turn(), Err(VmError::Deadlock));
}

#[test]
fn lower_priority_number_runs_first() {
    let mut vm = Vm::new();
    vm.create_thread(
        5,
        program(vec![VmInstruction::Local(vec![id("A")], vec![VmInstruction::Print(id("A"))])]),
    );
    vm.create_thread(
        1,
        program(vec![VmInstruction::Local(vec![id("B")], vec![VmInstruction::Print(id("B"))])]),
    );
    assert_eq!(vm.run(), Ok(()));
    assert_eq!(
        vm.output(),
        &vec![(id("B"), Value::Unbound), (id("A"), Value::Unbound)]
    );
}

#[test]
fn equal_priorities_take_turns_in_order_of_entry() {
    let mut vm = Vm::new();
    vm.create_thread(
        0,
        program(vec![VmInstruction::Local(vec![id("A")], vec![VmInstruction::Print(id("A"))])]),
    );
    vm.create_thread(
        0,
        program(vec![VmInstruction::Local(vec![id("B")], vec![VmInstruction::Print(id("B"))])]),
    );
    assert_eq!(vm.turn(), Ok(true));
    assert_eq!(vm.threads()[0].id(), 2);
    assert_eq!(vm.threads()[1].id(), 1);
    assert_eq!(vm.threads()[1].priority(), 1);
    assert_eq!(vm.turn(), Ok(true));
    assert_eq!(vm.threads()[0].id(), 1);
    assert_eq!(vm.threads()[1].id(), 2);
    assert_eq!(vm.run(), Ok(()));
    assert_eq!(
        vm.output(),
        &vec![(id("A"), Value::Unbound), (id("B"), Value::Unbound)]
    );
}

#[test]
fn priority_number_stays_at_the_end_of_the_range() {
    let mut vm = Vm::new();
    vm.create_thread(
        u32::MAX,
        program(vec![VmInstruction::Local(vec![id("A")], vec![VmInstruction::Print(id("A"))])]),
    );
    assert_eq!(vm.turn(), Ok(true));
    assert_eq!(vm.threads()[0].priority(), u32::MAX);
    assert_eq!(vm.run(), Ok(()));
}

#[test]
fn thread_with_nothing_to_do_leaves_the_pool() {
    let mut vm = Vm::new();
    vm.create_thread(0, SemanticStack(vec![]));
    assert_eq!(vm.turn(), Ok(true));
    assert!(vm.threads().is_empty());
    assert_eq!(vm.turn(), Ok(false));
}

#[test]
fn inner_scope_shadows_the_outer_one() {
    let mut vm = Vm::new();
    vm.create_thread(
        0,
        program(vec![VmInstruction::Local(
            vec![id("X")],
            vec![
                VmInstruction::Local(
                    vec![id("X")],
                    vec![VmInstruction::Assign(id("X"), Value::Int(2))],
                ),
                VmInstruction::Assign(id("X"), Value::Int(1)),
            ],
        )]),
    );
    assert_eq!(vm.run(), Ok(()));
    assert_eq!(held(&vm, 1), Some(Value::Int(1)));
    assert_eq!(held(&vm, 2), Some(Value::Int(2)));
}

#[test]
fn name_that_occurs_twice_in_a_scope_leads_to_the_later_variable() {
    let mut vm = Vm::new();
    vm.create_thread(
        0,
        program(vec![VmInstruction::Local(
            vec![id("X"), id("X")],
            vec![VmInstruction::Assign(id("X"), Value::Int(5))],
        )]),
    );
    assert_eq!(vm.run(), Ok(()));
    assert_eq!(held(&vm, 1), Some(Value::Unbound));
    assert_eq!(held(&vm, 2), Some(Value::Int(5)));
}
