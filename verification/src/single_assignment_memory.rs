use std::collections::HashMap;
use vstd::prelude::*;
use vstd::std_specs::iter::IteratorSpec;
use crate::environment::Environment;
use crate::error::VmError;
use crate::identifier::Identifier;
use crate::instruction::{clone_instructions, instructions_view, InstructionView, VmInstruction};
use crate::variable::Variable;

verus! {

/// A text tag that stands for itself.
pub type Atom = String;

/// What a value is, apart from how it is laid out in memory.
pub enum ValueView {
    /// The mark of a variable that has been allocated and not yet bound.
    Unbound,
    /// A signed integer.
    Int(i32),
    /// A closure: the names of its parameters, its body, and the bindings
    /// that were in force where it was defined.
    Proc(Seq<Seq<char>>, Seq<InstructionView>, Map<Seq<char>, Variable>),
    /// An atom, by its text.
    Atom(Seq<char>),
    /// A record: its fields in their order, each an atom with a value.
    Record(Seq<(Seq<char>, ValueView)>),
}

/// The data that programs manipulate.
#[derive(Debug, PartialEq, Eq)]
pub enum Value {
    /// The mark of a variable that has been allocated and not yet bound.
    /// It is never the result of a computation.
    Unbound,
    /// A signed integer.
    Int(i32),
    /// A closure: formal parameters, a body, and the defining environment.
    Proc(Vec<Identifier>, Vec<VmInstruction>, Environment),
    /// An atom.
    Atom(Atom),
    /// A record: fields named by atoms.
    Record(Vec<(Atom, Value)>),
}

/// The mathematical value that `value` stands for.
pub open spec fn value_view(value: Value) -> ValueView
    decreases value, 0nat,
{
    match value {
        Value::Unbound => ValueView::Unbound,
        Value::Int(number) => ValueView::Int(number),
        Value::Proc(parameters, body, environment) => ValueView::Proc(
            parameters.deep_view(),
            instructions_view(body),
            environment@,
        ),
        Value::Atom(text) => ValueView::Atom(text@),
        Value::Record(fields) => ValueView::Record(fields_view(fields)),
    }
}

/// The fields of a record, each with the mathematical value it holds.
pub open spec fn fields_view(fields: Vec<(Atom, Value)>) -> Seq<(Seq<char>, ValueView)>
    decreases fields, 1nat,
{
    Seq::new(
        fields@.len(),
        |i: int|
            if 0 <= i < fields@.len() {
                (fields@[i].0@, value_view(fields@[i].1))
            } else {
                arbitrary()
            },
    )
}

impl View for Value {
    type V = ValueView;

    open spec fn view(&self) -> ValueView {
        value_view(*self)
    }
}

impl DeepView for Value {
    type V = ValueView;

    open spec fn deep_view(&self) -> ValueView {
        value_view(*self)
    }
}

/// A copy of a list of identifiers.
pub fn clone_identifiers(identifiers: &Vec<Identifier>) -> (copy: Vec<Identifier>)
    ensures
        copy.deep_view() == identifiers.deep_view(),
{
    let mut copy: Vec<Identifier> = Vec::new();
    let mut i: usize = 0;
    while i < identifiers.len()
        invariant
            i <= identifiers.len(),
            copy.len() == i,
            forall|j: int| 0 <= j < i ==> copy@[j]@ == identifiers@[j]@,
        decreases identifiers.len() - i,
    {
        copy.push(identifiers[i].clone());
        i += 1;
    }
    assert(copy.deep_view() =~= identifiers.deep_view());
    copy
}

/// A copy of the fields of a record.
fn clone_fields(fields: &Vec<(Atom, Value)>) -> (copy: Vec<(Atom, Value)>)
    ensures
        fields_view(copy) == fields_view(*fields),
    decreases *fields, 1nat,
{
    let mut copy: Vec<(Atom, Value)> = Vec::new();
    let mut i: usize = 0;
    while i < fields.len()
        invariant
            i <= fields.len(),
            copy.len() == i,
            forall|j: int| 0 <= j < i ==> copy@[j].0@ == fields@[j].0@ && copy@[j].1@ == fields@[j].1@,
        decreases fields.len() - i,
    {
        copy.push((fields[i].0.clone(), fields[i].1.clone()));
        i += 1;
    }
    assert(fields_view(copy) =~= fields_view(*fields));
    copy
}

impl Clone for Value {
    fn clone(&self) -> (copy: Value)
        ensures
            copy@ == self@,
        decreases *self, 0nat,
    {
        match self {
            Value::Unbound => Value::Unbound,
            Value::Int(number) => Value::Int(*number),
            Value::Proc(parameters, body, environment) => Value::Proc(
                clone_identifiers(parameters),
                clone_instructions(body),
                environment.clone(),
            ),
            Value::Atom(text) => Value::Atom(text.clone()),
            Value::Record(fields) => Value::Record(clone_fields(fields)),
        }
    }
}

impl Value {
    /// Whether this is anything but the mark of an unbound variable.
    pub fn is_bound(&self) -> (bound: bool)
        ensures
            bound == !(self@ is Unbound),
    {
        match self {
            Value::Unbound => false,
            _ => true,
        }
    }
}

/// The store after `variable` has been allocated in it, or the reason
/// why it cannot be.
pub open spec fn store_allocate(
    store: Map<Variable, ValueView>,
    variable: Variable,
) -> Result<Map<Variable, ValueView>, VmError> {
    if store.contains_key(variable) {
        Err(VmError::DoubleAllocation)
    } else {
        Ok(store.insert(variable, ValueView::Unbound))
    }
}

/// The store after `variable` has been bound to `value` in it, or the
/// reason why it cannot be. The state of the variable is judged first, the
/// value after it.
pub open spec fn store_bind(
    store: Map<Variable, ValueView>,
    variable: Variable,
    value: ValueView,
) -> Result<Map<Variable, ValueView>, VmError> {
    if !store.contains_key(variable) {
        Err(VmError::UnallocatedWrite)
    } else if !(store[variable] is Unbound) {
        Err(VmError::DoubleBind)
    } else if value is Unbound {
        Err(VmError::UnboundValue)
    } else {
        Ok(store.insert(variable, value))
    }
}

/// One operation on a store.
pub enum StoreOp {
    Allocate(Variable),
    Bind(Variable, ValueView),
}

/// Whether `store` accepts `op`.
pub open spec fn accepts(store: Map<Variable, ValueView>, op: StoreOp) -> bool {
    match op {
        StoreOp::Allocate(variable) => store_allocate(store, variable) is Ok,
        StoreOp::Bind(variable, value) => store_bind(store, variable, value) is Ok,
    }
}

/// The store after `op` has been tried on it: a refused operation leaves
/// it as it was.
pub open spec fn after(store: Map<Variable, ValueView>, op: StoreOp) -> Map<Variable, ValueView> {
    match op {
        StoreOp::Allocate(variable) => match store_allocate(store, variable) {
            Ok(next) => next,
            Err(_) => store,
        },
        StoreOp::Bind(variable, value) => match store_bind(store, variable, value) {
            Ok(next) => next,
            Err(_) => store,
        },
    }
}

/// The store after each of `ops` has been tried on it, first to last.
pub open spec fn after_all(store: Map<Variable, ValueView>, ops: Seq<StoreOp>) -> Map<
    Variable,
    ValueView,
>
    decreases ops.len(),
{
    if ops.len() == 0 {
        store
    } else {
        after(after_all(store, ops.drop_last()), ops.last())
    }
}

/// How many of `ops`, tried first to last on `store`, are accepted and
/// bind `variable`.
pub open spec fn binds_of(store: Map<Variable, ValueView>, ops: Seq<StoreOp>, variable: Variable) -> nat
    decreases ops.len(),
{
    if ops.len() == 0 {
        0
    } else {
        let earlier = binds_of(store, ops.drop_last(), variable);
        let reached = after_all(store, ops.drop_last());
        match ops.last() {
            StoreOp::Bind(bound, _) => if bound == variable && accepts(reached, ops.last()) {
                earlier + 1
            } else {
                earlier
            },
            StoreOp::Allocate(_) => earlier,
        }
    }
}

/// Whether `variable` is bound in `store`.
pub open spec fn is_bound_in(store: Map<Variable, ValueView>, variable: Variable) -> bool {
    store.contains_key(variable) && !(store[variable] is Unbound)
}

/// A bound variable holds its value for good: whatever is tried on the
/// store afterwards, it is bound to the same value.
pub proof fn lemma_bound_for_good(
    store: Map<Variable, ValueView>,
    ops: Seq<StoreOp>,
    variable: Variable,
)
    requires
        is_bound_in(store, variable),
    ensures
        is_bound_in(after_all(store, ops), variable),
        after_all(store, ops)[variable] == store[variable],
    decreases ops.len(),
{
    if ops.len() > 0 {
        lemma_bound_for_good(store, ops.drop_last(), variable);
    }
}

/// Single assignment: over the whole life of a store, whatever is tried
/// on it, at most one bind of a given variable is accepted; and once one
/// has been, the variable is bound.
pub proof fn lemma_bound_at_most_once(
    store: Map<Variable, ValueView>,
    ops: Seq<StoreOp>,
    variable: Variable,
)
    ensures
        binds_of(store, ops, variable) <= 1,
        binds_of(store, ops, variable) == 1 ==> is_bound_in(after_all(store, ops), variable),
        is_bound_in(store, variable) ==> binds_of(store, ops, variable) == 0,
    decreases ops.len(),
{
    if ops.len() > 0 {
        lemma_bound_at_most_once(store, ops.drop_last(), variable);
        if is_bound_in(store, variable) {
            lemma_bound_for_good(store, ops.drop_last(), variable);
        }
    }
}

/// After a bind of `variable` has been accepted, every later bind of it
/// is refused with `DoubleBind`, whatever was tried on the store in
/// between and whatever value is offered; the variable still holds the
/// value of the first bind.
pub proof fn lemma_second_bind_is_refused(
    store: Map<Variable, ValueView>,
    variable: Variable,
    first: ValueView,
    between: Seq<StoreOp>,
    second: ValueView,
)
    requires
        store_bind(store, variable, first) is Ok,
    ensures
        ({
            let bound = store_bind(store, variable, first)->Ok_0;
            let later = after_all(bound, between);
            &&& store_bind(later, variable, second) == Err::<Map<Variable, ValueView>, VmError>(
                VmError::DoubleBind,
            )
            &&& later[variable] == first
        }),
{
    let bound = store_bind(store, variable, first)->Ok_0;
    lemma_bound_for_good(bound, between, variable);
}

/// A variable that a store holds has been allocated: if the store has
/// grown from the empty one by `ops`, one of them is an accepted
/// allocation of the variable.
pub proof fn lemma_held_was_allocated(ops: Seq<StoreOp>, variable: Variable)
    requires
        after_all(Map::empty(), ops).contains_key(variable),
    ensures
        exists|j: int|
            0 <= j < ops.len() && #[trigger] ops[j] == StoreOp::Allocate(variable) && accepts(
                after_all(Map::empty(), ops.take(j)),
                ops[j],
            ),
    decreases ops.len(),
{
    let empty = Map::<Variable, ValueView>::empty();
    if ops.len() > 0 {
        let earlier = ops.drop_last();
        let last = ops.len() - 1;
        if after_all(empty, earlier).contains_key(variable) {
            lemma_held_was_allocated(earlier, variable);
            let j = choose|j: int|
                0 <= j < earlier.len() && #[trigger] earlier[j] == StoreOp::Allocate(variable)
                    && accepts(after_all(empty, earlier.take(j)), earlier[j]);
            assert(earlier.take(j) =~= ops.take(j));
            assert(ops[j] == earlier[j]);
        } else {
            assert(ops.take(last) =~= earlier);
            assert(ops[last] == StoreOp::Allocate(variable));
        }
    }
}

/// Allocation comes before binding: in a store that has grown from the
/// empty one by `ops`, a bind of `variable` is accepted only if one of
/// `ops` is an accepted allocation of it.
pub proof fn lemma_bind_follows_allocate(ops: Seq<StoreOp>, variable: Variable, value: ValueView)
    requires
        store_bind(after_all(Map::empty(), ops), variable, value) is Ok,
    ensures
        exists|j: int|
            0 <= j < ops.len() && #[trigger] ops[j] == StoreOp::Allocate(variable) && accepts(
                after_all(Map::empty(), ops.take(j)),
                ops[j],
            ),
{
    lemma_held_was_allocated(ops, variable);
}

/// The single-assignment store: what each allocated variable holds.
///
/// A variable that the store does not know is unallocated. An allocated
/// variable holds the mark `Unbound` until it is bound, and from then on
/// the value it was bound to, for good.
#[derive(Debug)]
pub struct SingleAssignmentMemory(HashMap<u64, Value>);

impl View for SingleAssignmentMemory {
    type V = Map<Variable, ValueView>;

    closed spec fn view(&self) -> Map<Variable, ValueView> {
        Map::new(
            |variable: Variable| self.0@.contains_key(variable.id),
            |variable: Variable| self.0@[variable.id]@,
        )
    }
}

impl SingleAssignmentMemory {
    /// The store in which no variable is allocated.
    pub fn new() -> (memory: SingleAssignmentMemory)
        ensures
            memory@ == Map::<Variable, ValueView>::empty(),
    {
        let memory = SingleAssignmentMemory(HashMap::new());
        assert(memory@ =~= Map::<Variable, ValueView>::empty());
        memory
    }

    /// What `variable` holds, which may be the mark `Unbound`; nothing if
    /// it was never allocated.
    pub fn read(&self, variable: &Variable) -> (held: Option<&Value>)
        ensures
            match held {
                Some(value) => self@.contains_key(*variable) && value@ == self@[*variable],
                None => !self@.contains_key(*variable),
            },
    {
        broadcast use vstd::std_specs::hash::group_hash_axioms;

        self.0.get(&variable.id)
    }

    /// Allocates `variable`: it is then in the store, unbound. Refused
    /// with `DoubleAllocation` if it is allocated already.
    pub fn allocate(&mut self, variable: Variable) -> (outcome: Result<(), VmError>)
        ensures
            match store_allocate(old(self)@, variable) {
                Ok(store) => outcome is Ok && final(self)@ == store,
                Err(error) => outcome == Err::<(), VmError>(error) && final(self)@ == old(self)@,
            },
    {
        broadcast use vstd::std_specs::hash::group_hash_axioms;

        if self.0.contains_key(&variable.id) {
            return Err(VmError::DoubleAllocation);
        }
        self.0.insert(variable.id, Value::Unbound);
        assert(self@ =~= old(self)@.insert(variable, ValueView::Unbound));
        Ok(())
    }

    /// Binds `variable` to `value`, once and for all. Refused with
    /// `UnallocatedWrite` if the variable was never allocated, with
    /// `DoubleBind` if it is bound already, and with `UnboundValue` if
    /// `value` is the mark `Unbound`.
    pub fn bind(&mut self, variable: &Variable, value: Value) -> (outcome: Result<(), VmError>)
        ensures
            match store_bind(old(self)@, *variable, value@) {
                Ok(store) => outcome is Ok && final(self)@ == store,
                Err(error) => outcome == Err::<(), VmError>(error) && final(self)@ == old(self)@,
            },
    {
        broadcast use vstd::std_specs::hash::group_hash_axioms;

        match self.0.get(&variable.id) {
            None => {
                return Err(VmError::UnallocatedWrite);
            },
            Some(existing) => {
                if existing.is_bound() {
                    return Err(VmError::DoubleBind);
                }
            },
        }
        if !value.is_bound() {
            return Err(VmError::UnboundValue);
        }
        let ghost bound = value@;
        self.0.insert(variable.id, value);
        assert(self@ =~= old(self)@.insert(*variable, bound));
        Ok(())
    }

    /// The contents of the store: each allocated variable once, with a
    /// copy of what it holds. The order of the list is not fixed.
    pub fn show_memory(&self) -> (contents: Vec<(Variable, Value)>)
        ensures
            forall|i: int|
                0 <= i < contents@.len() ==> self@.contains_key(#[trigger] contents@[i].0)
                    && contents@[i].1@ == self@[contents@[i].0],
            forall|variable: Variable|
                self@.contains_key(variable) ==> exists|i: int|
                    0 <= i < contents@.len() && #[trigger] contents@[i].0 == variable,
            forall|i: int, j: int|
                0 <= i < j < contents@.len() ==> contents@[i].0 != contents@[j].0,
    {
        broadcast use vstd::std_specs::hash::group_hash_axioms;

        let mut contents: Vec<(Variable, Value)> = Vec::new();
        for entry in it: self.0.iter()
            invariant
                contents@.len() == it.index(),
                it.seq() == self.0.iter().remaining(),
                it.seq().no_duplicates(),
                forall|i: int|
                    0 <= i < contents@.len() ==> contents@[i].0.id == *it.seq()[i].0
                        && contents@[i].1@ == (*it.seq()[i].1)@,
        {
            contents.push((Variable::new(*entry.0), entry.1.clone()));
        }
        proof {
            let walk = self.0.iter().remaining();
            assert forall|i: int| 0 <= i < contents@.len() implies self@.contains_key(
                #[trigger] contents@[i].0,
            ) && contents@[i].1@ == self@[contents@[i].0] by {
                assert(self.0@.contains_key(*walk[i].0) && self.0@[*walk[i].0] == *walk[i].1);
            }
            assert forall|variable: Variable| self@.contains_key(variable) implies exists|i: int|
                0 <= i < contents@.len() && #[trigger] contents@[i].0 == variable by {
                assert(self.0@.contains_key(variable.id));
                let pair = (&variable.id, &self.0@[variable.id]);
                assert(walk.contains(pair));
                let i = choose|i: int| 0 <= i < walk.len() && walk[i] == pair;
                assert(contents@[i].0 == variable);
            }
            assert forall|i: int, j: int| 0 <= i < j < contents@.len() implies contents@[i].0
                != contents@[j].0 by {
                assert(self.0@.contains_key(*walk[i].0) && self.0@[*walk[i].0] == *walk[i].1);
                assert(self.0@.contains_key(*walk[j].0) && self.0@[*walk[j].0] == *walk[j].1);
                if contents@[i].0 == contents@[j].0 {
                    assert(walk[i] == walk[j]);
                }
            }
        }
        contents
    }
}

} // verus!
