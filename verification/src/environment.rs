use vstd::prelude::*;
use crate::identifier::Identifier;
use crate::variable::Variable;

verus! {

/// The names and variables that a list of bindings holds, in its order.
pub open spec fn entries_of(bindings: Seq<(Identifier, Variable)>) -> Seq<(Seq<char>, Variable)> {
    Seq::new(bindings.len(), |i: int| (bindings[i].0@, bindings[i].1))
}

/// What a list of entries denotes: the map in which each name leads to the
/// variable of its last entry in the list.
pub open spec fn map_of(entries: Seq<(Seq<char>, Variable)>) -> Map<Seq<char>, Variable>
    decreases entries.len(),
{
    if entries.len() == 0 {
        Map::empty()
    } else {
        map_of(entries.drop_last()).insert(entries.last().0, entries.last().1)
    }
}

/// The names that a list of identifiers spells.
pub open spec fn names_of(identifiers: Seq<Identifier>) -> Set<Seq<char>> {
    Set::new(
        |name: Seq<char>|
            exists|i: int| 0 <= i < identifiers.len() && #[trigger] identifiers[i]@ == name,
    )
}

/// A snapshot of the lexical bindings at one point of a program.
///
/// An environment is a value: extending or restricting it yields a new
/// environment and leaves the receiver as it was. Its view is the map from
/// names to variables; within one environment a name leads to at most one
/// variable, and a later binding of a name shadows an earlier one.
#[derive(Debug, PartialEq, Eq)]
pub struct Environment(Vec<(Identifier, Variable)>);

impl View for Environment {
    type V = Map<Seq<char>, Variable>;

    closed spec fn view(&self) -> Map<Seq<char>, Variable> {
        map_of(entries_of(self.0@))
    }
}

impl DeepView for Environment {
    type V = Map<Seq<char>, Variable>;

    open spec fn deep_view(&self) -> Map<Seq<char>, Variable> {
        self@
    }
}

/// A list of entries with one more at its end denotes the map of the list
/// with that entry inserted.
proof fn lemma_map_of_push(entries: Seq<(Seq<char>, Variable)>, name: Seq<char>, variable: Variable)
    ensures
        map_of(entries.push((name, variable))) == map_of(entries).insert(name, variable),
{
    assert(entries.push((name, variable)).drop_last() =~= entries);
}

/// Extension is local: the extended environment leads `name` to
/// `variable`, and every other name to what it led to before, if
/// anything.
pub proof fn lemma_adjoint_touches_one_name(
    environment: Map<Seq<char>, Variable>,
    name: Seq<char>,
    variable: Variable,
    other: Seq<char>,
)
    ensures
        environment.insert(name, variable).contains_key(name),
        environment.insert(name, variable)[name] == variable,
        other != name ==> (environment.insert(name, variable).contains_key(other)
            <==> environment.contains_key(other)),
        other != name && environment.contains_key(other) ==> environment.insert(
            name,
            variable,
        )[other] == environment[other],
{
}

/// Restriction is a projection: the restricted environment binds the
/// names that the environment binds and `names` holds, each to the
/// variable it was bound to, and no other name.
pub proof fn lemma_restrict_keeps_bindings(
    environment: Map<Seq<char>, Variable>,
    names: Set<Seq<char>>,
    name: Seq<char>,
)
    ensures
        environment.restrict(names).contains_key(name) <==> (environment.contains_key(name)
            && names.contains(name)),
        environment.restrict(names).contains_key(name) ==> environment.restrict(names)[name]
            == environment[name],
{
}

impl Environment {
    /// The environment that binds nothing.
    pub fn new() -> (environment: Environment)
        ensures
            environment@ == Map::<Seq<char>, Variable>::empty(),
    {
        let environment = Environment(Vec::new());
        assert(entries_of(environment.0@) =~= Seq::empty());
        environment
    }

    /// The variable that `identifier` is bound to, if it is bound.
    pub fn lookup(&self, identifier: &Identifier) -> (found: Option<&Variable>)
        ensures
            match found {
                Some(variable) => self@.contains_key(identifier@) && *variable == self@[identifier@],
                None => !self@.contains_key(identifier@),
            },
    {
        let ghost entries = entries_of(self.0@);
        let ghost name = identifier@;
        let mut i: usize = self.0.len();
        assert(entries.take(i as int) =~= entries);
        while i > 0
            invariant
                i <= self.0.len(),
                entries == entries_of(self.0@),
                name == identifier@,
                self@ == map_of(entries),
                self@.contains_key(name) <==> map_of(entries.take(i as int)).contains_key(name),
                self@.contains_key(name) ==> self@[name] == map_of(entries.take(i as int))[name],
            decreases i,
        {
            proof {
                assert(entries.take(i as int).drop_last() =~= entries.take(i - 1));
                assert(entries.take(i as int).last() == entries[i - 1]);
            }
            i -= 1;
            if self.0[i].0.same_name(identifier) {
                return Some(&self.0[i].1);
            }
        }
        None
    }

    /// The environment that binds `identifier` to `variable` and is
    /// otherwise like this one. The receiver is not changed.
    pub fn adjoint(&self, identifier: &Identifier, variable: Variable) -> (extended: Environment)
        ensures
            extended@ == self@.insert(identifier@, variable),
    {
        let mut extended = self.clone();
        let ghost before = entries_of(extended.0@);
        extended.0.push((identifier.clone(), variable));
        proof {
            assert(entries_of(extended.0@) =~= before.push((identifier@, variable)));
            lemma_map_of_push(before, identifier@, variable);
        }
        extended
    }

    /// The environment that holds this one's bindings for the names among
    /// `identifiers`, and no others. A name that this environment does not
    /// bind is passed over. The receiver is not changed.
    pub fn restrict(&self, identifiers: Vec<Identifier>) -> (restricted: Environment)
        ensures
            restricted@ == self@.restrict(names_of(identifiers@)),
    {
        let mut restricted = Environment::new();
        let mut i: usize = 0;
        assert(restricted@ =~= self@.restrict(names_of(identifiers@.take(0))));
        while i < identifiers.len()
            invariant
                i <= identifiers.len(),
                restricted@ == self@.restrict(names_of(identifiers@.take(i as int))),
            decreases identifiers.len() - i,
        {
            let ghost before = restricted@;
            let ghost seen = names_of(identifiers@.take(i as int));
            let ghost name = identifiers@[i as int]@;
            if let Some(variable) = self.lookup(&identifiers[i]) {
                restricted = restricted.adjoint(&identifiers[i], *variable);
            }
            i += 1;
            proof {
                let now = names_of(identifiers@.take(i as int));
                assert(identifiers@.take(i as int)[i - 1] == identifiers@[i - 1]);
                assert forall|other: Seq<char>| now.contains(other) <==> (seen.contains(other) || other == name) by {
                    if now.contains(other) {
                        let j = choose|j: int| 0 <= j < i && #[trigger] identifiers@.take(i as int)[j]@ == other;
                        if j < i - 1 {
                            assert(identifiers@.take(i - 1)[j]@ == other);
                        }
                    }
                    if seen.contains(other) {
                        let j = choose|j: int| 0 <= j < i - 1 && #[trigger] identifiers@.take(i - 1)[j]@ == other;
                        assert(identifiers@.take(i as int)[j]@ == other);
                    }
                }
                assert(restricted@ =~= self@.restrict(now));
            }
        }
        assert(identifiers@.take(i as int) =~= identifiers@);
        restricted
    }
}

impl Clone for Environment {
    fn clone(&self) -> (copy: Environment)
        ensures
            copy@ == self@,
    {
        let mut bindings: Vec<(Identifier, Variable)> = Vec::new();
        let mut i: usize = 0;
        while i < self.0.len()
            invariant
                i <= self.0.len(),
                bindings.len() == i,
                entries_of(bindings@) =~= entries_of(self.0@).take(i as int),
            decreases self.0.len() - i,
        {
            bindings.push((self.0[i].0.clone(), self.0[i].1));
            i += 1;
        }
        assert(entries_of(self.0@).take(i as int) =~= entries_of(self.0@));
        Environment(bindings)
    }
}

} // verus!
