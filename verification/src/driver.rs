//! The catalog: its builder, the frozen driver, and the search for a chain
//! of operations between two states.

use crate::callbacks::{CaptureBuild, CaptureSetup, ShowBuild, ShowSetup};
use crate::tables::{
    op_entries, setup_entries, state_entries, OpTable, SetupTable, StateTable,
};
use crate::text::same_text;
pub use crate::callbacks::{EmitBuild, EmitRuleBuild, EmitSetup};
pub use crate::catalog::{Operation, Setup, State};
pub use crate::emitter::{EmitError, EmitResult};
pub use crate::pathfind::Destination;
pub use crate::paths::relative_path;
pub use crate::plan::{Plan, PlanError, Request};
pub use crate::refs::{OpRef, SetupRef, StateRef};
use vstd::prelude::*;

verus! {

/// The most states, operations or setups that a builder takes. A frozen
/// catalog holds a few entries of its own beyond them.
pub const CAPACITY: usize = 0xffff_fff0;

/// Every reference of an operation is to an entry among `states` states and
/// `setups` setups.
pub open spec fn op_fits(op: Operation, states: nat, setups: nat) -> bool {
    &&& op.input.0 < states
    &&& op.output.0 < states
    &&& forall|i: int| 0 <= i < op.setups@.len() ==> (#[trigger] op.setups@[i]).0 < setups
}

/// Every operation among `ops` fits.
pub open spec fn ops_fit(ops: Seq<Operation>, states: nat, setups: nat) -> bool {
    forall|i: int| 0 <= i < ops.len() ==> op_fits(#[trigger] ops[i], states, setups)
}

/// The first of `names` that is `name`, if one is.
pub open spec fn first_named(names: Seq<Seq<char>>, name: Seq<char>) -> Option<int> {
    if exists|i: int| is_first_named(names, name, i) {
        Some(choose|i: int| is_first_named(names, name, i))
    } else {
        None
    }
}

/// `names[at]` is `name`, and nothing before it is.
pub open spec fn is_first_named(names: Seq<Seq<char>>, name: Seq<char>, at: int) -> bool {
    &&& 0 <= at < names.len()
    &&& names[at] == name
    &&& forall|j: int| 0 <= j < at ==> names[j] != name
}

/// A Driver encapsulates a set of States and the Operations that can transform between them. It
/// contains all the machinery to perform builds in a given ecosystem.
pub struct Driver {
    pub(crate) name: String,
    pub(crate) setups: SetupTable,
    pub(crate) states: StateTable,
    pub(crate) ops: OpTable,
    pub(crate) stdin_op: OpRef,
    pub(crate) stdout_op: OpRef,
}

/// A catalog under construction.
pub struct DriverBuilder {
    pub(crate) name: String,
    pub(crate) setups: SetupTable,
    pub(crate) states: StateTable,
    pub(crate) ops: OpTable,
}

impl Driver {
    /// The states of the catalog, in the order of their registration.
    pub closed spec fn all_states(&self) -> Seq<State> {
        state_entries(self.states)
    }

    /// The operations of the catalog, in the order of their registration.
    pub closed spec fn operations(&self) -> Seq<Operation> {
        op_entries(self.ops)
    }

    /// The setups of the catalog, in the order of their registration.
    pub closed spec fn all_setups(&self) -> Seq<Setup> {
        setup_entries(self.setups)
    }

    /// The name of the catalog.
    pub closed spec fn name_text(&self) -> Seq<char> {
        self.name@
    }

    /// The operation that captures standard input.
    pub closed spec fn stdin_ref(&self) -> OpRef {
        self.stdin_op
    }

    /// The operation that shows a file on standard output.
    pub closed spec fn stdout_ref(&self) -> OpRef {
        self.stdout_op
    }

    /// `state` is a handle of this catalog.
    pub open spec fn knows_state(&self, state: StateRef) -> bool {
        state.0 < self.all_states().len()
    }

    /// `op` is a handle of this catalog.
    pub open spec fn knows_op(&self, op: OpRef) -> bool {
        op.0 < self.operations().len()
    }

    /// `setup` is a handle of this catalog.
    pub open spec fn knows_setup(&self, setup: SetupRef) -> bool {
        setup.0 < self.all_setups().len()
    }

    /// What holds of every catalog: every handle in it resolves to an entry,
    /// and the two operations for standard input and output are as `build`
    /// made them.
    #[verifier::type_invariant]
    pub open spec fn wf(&self) -> bool {
        &&& self.all_states().len() <= u32::MAX
        &&& self.operations().len() <= u32::MAX
        &&& self.all_setups().len() <= u32::MAX
        &&& ops_fit(self.operations(), self.all_states().len(), self.all_setups().len())
        &&& self.knows_op(self.stdin_ref())
        &&& self.knows_op(self.stdout_ref())
        &&& self.stdin_ref() != self.stdout_ref()
        &&& self.builtin(self.stdin_ref(), CaptureSetup.text())
        &&& self.builtin(self.stdout_ref(), ShowSetup.text())
        &&& forall|input: Seq<char>, output: Seq<char>| #[trigger]
            self.operations()[self.stdin_ref().0 as int].emit.text(input, output)
                == CaptureBuild.text(input, output)
        &&& forall|input: Seq<char>, output: Seq<char>| #[trigger]
            self.operations()[self.stdout_ref().0 as int].emit.text(input, output)
                == ShowBuild.text(input, output)
        &&& self.operations()[self.stdin_ref().0 as int].name@ == "stdin"@
        &&& self.operations()[self.stdout_ref().0 as int].name@ == "stdout"@
    }

    /// Operation `op` stays within one state without extensions and has one
    /// setup, of the name of the operation, which writes `text`.
    pub open spec fn builtin(&self, op: OpRef, text: Option<Seq<char>>) -> bool {
        let entry = self.operations()[op.0 as int];
        &&& entry.input == entry.output
        &&& self.all_states()[entry.input.0 as int].extensions@.len() == 0
        &&& entry.setups@.len() == 1
        &&& self.all_setups()[entry.setups@[0].0 as int].name@ == entry.name@
        &&& self.all_setups()[entry.setups@[0].0 as int].emit.text() == text
    }

    /// The name of the catalog.
    pub fn name(&self) -> (r: &str)
        ensures
            r@ == self.name_text(),
    {
        self.name.as_str()
    }

    /// The operation that captures standard input in a file.
    pub fn stdin_op(&self) -> (r: OpRef)
        ensures
            r == self.stdin_ref(),
            self.knows_op(r),
    {
        proof {
            use_type_invariant(self);
        }
        self.stdin_op
    }

    /// The operation that shows a file on standard output.
    pub fn stdout_op(&self) -> (r: OpRef)
        ensures
            r == self.stdout_ref(),
            self.knows_op(r),
    {
        proof {
            use_type_invariant(self);
        }
        self.stdout_op
    }

    /// The number of states.
    pub fn state_count(&self) -> (r: usize)
        ensures
            r == self.all_states().len(),
            r <= u32::MAX,
    {
        proof {
            use_type_invariant(self);
        }
        self.states.len()
    }

    /// The number of operations.
    pub fn op_count(&self) -> (r: usize)
        ensures
            r == self.operations().len(),
            r <= u32::MAX,
    {
        proof {
            use_type_invariant(self);
        }
        self.ops.len()
    }

    /// The number of setups.
    pub fn setup_count(&self) -> (r: usize)
        ensures
            r == self.all_setups().len(),
            r <= u32::MAX,
    {
        proof {
            use_type_invariant(self);
        }
        self.setups.len()
    }

    /// Whether `state` is a handle of this catalog.
    pub fn has_state(&self, state: StateRef) -> (r: bool)
        ensures
            r == self.knows_state(state),
    {
        (state.0 as usize) < self.states.len()
    }

    /// Whether `op` is a handle of this catalog.
    pub fn has_op(&self, op: OpRef) -> (r: bool)
        ensures
            r == self.knows_op(op),
    {
        (op.0 as usize) < self.ops.len()
    }

    /// Whether `setup` is a handle of this catalog.
    pub fn has_setup(&self, setup: SetupRef) -> (r: bool)
        ensures
            r == self.knows_setup(setup),
    {
        (setup.0 as usize) < self.setups.len()
    }

    /// The entry of a state.
    pub fn state(&self, state: StateRef) -> (r: &State)
        requires
            self.knows_state(state),
        ensures
            *r == self.all_states()[state.0 as int],
    {
        self.states.get(state)
    }

    /// The entry of an operation.
    pub fn op(&self, op: OpRef) -> (r: &Operation)
        requires
            self.knows_op(op),
        ensures
            *r == self.operations()[op.0 as int],
            op_fits(*r, self.all_states().len(), self.all_setups().len()),
    {
        proof {
            use_type_invariant(self);
        }
        self.ops.get(op)
    }

    /// The entry of a setup.
    pub fn setup(&self, setup: SetupRef) -> (r: &Setup)
        requires
            self.knows_setup(setup),
        ensures
            *r == self.all_setups()[setup.0 as int],
    {
        self.setups.get(setup)
    }
}


/// The names of states, in order.
pub open spec fn state_names(states: Seq<State>) -> Seq<Seq<char>> {
    states.map_values(|state: State| state.name@)
}

/// The names of operations, in order.
pub open spec fn op_names(ops: Seq<Operation>) -> Seq<Seq<char>> {
    ops.map_values(|op: Operation| op.name@)
}

/// The names of setups, in order.
pub open spec fn setup_names(setups: Seq<Setup>) -> Seq<Seq<char>> {
    setups.map_values(|setup: Setup| setup.name@)
}

/// The number of an optional handle of a state.
pub open spec fn state_number(state: Option<StateRef>) -> Option<int> {
    match state {
        Some(s) => Some(s.0 as int),
        None => None,
    }
}

/// The number of an optional handle of an operation.
pub open spec fn op_number(op: Option<OpRef>) -> Option<int> {
    match op {
        Some(o) => Some(o.0 as int),
        None => None,
    }
}

/// The number of an optional handle of a setup.
pub open spec fn setup_number(setup: Option<SetupRef>) -> Option<int> {
    match setup {
        Some(s) => Some(s.0 as int),
        None => None,
    }
}

/// Where `names[at]` is the first entry of its name, `first_named` finds it.
pub proof fn lemma_first_named(names: Seq<Seq<char>>, name: Seq<char>, at: int)
    requires
        is_first_named(names, name, at),
    ensures
        first_named(names, name) == Some(at),
{
    let chosen = choose|i: int| is_first_named(names, name, i);
    if chosen < at {
        assert(names[chosen] != name);
    } else if at < chosen {
        assert(names[at] != name);
    }
}

/// Where no entry has the name, `first_named` finds none.
pub proof fn lemma_none_named(names: Seq<Seq<char>>, name: Seq<char>)
    requires
        forall|i: int| 0 <= i < names.len() ==> names[i] != name,
    ensures
        first_named(names, name) is None,
{
}

/// A lookup by name gives back the handle whose name it was, as long as no
/// entry registered before it has the same name.
pub proof fn lemma_lookup_round_trip(names: Seq<Seq<char>>, at: int)
    requires
        0 <= at < names.len(),
        forall|j: int| 0 <= j < at ==> names[j] != names[at],
    ensures
        first_named(names, names[at]) == Some(at),
{
    lemma_first_named(names, names[at], at);
}

/// The first state that has the extension, if one has.
pub open spec fn first_with_extension(states: Seq<State>, ext: Seq<char>) -> Option<int> {
    if exists|i: int| is_first_with_extension(states, ext, i) {
        Some(choose|i: int| is_first_with_extension(states, ext, i))
    } else {
        None
    }
}

/// The state at `at` has the extension, and no state before it has.
pub open spec fn is_first_with_extension(states: Seq<State>, ext: Seq<char>, at: int) -> bool {
    &&& 0 <= at < states.len()
    &&& states[at].has_extension(ext)
    &&& forall|j: int| 0 <= j < at ==> !states[j].has_extension(ext)
}

impl Driver {
    /// The name that a file of `state` is given: the stem, a dot and the
    /// first extension of the state. None where the state has no extension.
    pub open spec fn generated_name(&self, stem: Seq<char>, state: StateRef) -> Option<Seq<char>> {
        match self.all_states()[state.0 as int].primary_extension() {
            Some(ext) => Some(stem + "."@ + ext),
            None => None,
        }
    }

    /// Generate a filename with an extension appropriate for the given State.
    pub fn gen_name(&self, stem: &str, state: StateRef) -> (r: Option<String>)
        requires
            self.knows_state(state),
        ensures
            crate::paths::text_of(r) == self.generated_name(stem@, state),
    {
        // Two states with one extension get one name: a catalog has to keep
        // the first extensions of the states on a chain apart.
        let entry = self.states.get(state);
        if entry.extensions.len() > 0 {
            let name = String::from_str(stem).concat(".").concat(entry.extensions[0].as_str());
            Some(name)
        } else {
            None
        }
    }

    /// The first state that has the extension `ext`.
    pub fn state_for_extension(&self, ext: &str) -> (r: Option<StateRef>)
        ensures
            state_number(r) == first_with_extension(self.all_states(), ext@),
            r matches Some(state) ==> self.knows_state(state),
    {
        proof {
            use_type_invariant(self);
        }
        let n: usize = self.states.len();
        let mut i: usize = 0;
        while i < n
            invariant
                n == self.all_states().len(),
                n <= u32::MAX,
                i <= n,
                forall|j: int| 0 <= j < i ==> !self.all_states()[j].has_extension(ext@),
            decreases n - i,
        {
            let state = StateRef(i as u32);
            if self.states.get(state).ext_matches(ext) {
                proof {
                    let at = i as int;
                    assert(is_first_with_extension(self.all_states(), ext@, at));
                    let chosen = choose|c: int| is_first_with_extension(self.all_states(), ext@, c);
                    if chosen < at {
                        assert(!self.all_states()[chosen].has_extension(ext@));
                    } else if at < chosen {
                        assert(self.all_states()[at].has_extension(ext@));
                    }
                }
                return Some(state);
            }
            i = i + 1;
        }
        None
    }

    /// The state that the extension of `path` stands for: the first state
    /// that has it.
    pub open spec fn guessed_state(&self, path: Seq<char>) -> Option<int> {
        match crate::paths::path_extension(path) {
            Some(ext) => first_with_extension(self.all_states(), ext),
            None => None,
        }
    }

    /// The state that the extension of a file name stands for.
    pub fn guess_state(&self, path: &str) -> (r: Option<StateRef>)
        ensures
            state_number(r) == self.guessed_state(path@),
            r matches Some(state) ==> self.knows_state(state),
    {
        match crate::paths::extension(path) {
            Some(ext) => self.state_for_extension(ext.as_str()),
            None => None,
        }
    }

    /// The first state of the name `name`.
    pub fn get_state(&self, name: &str) -> (r: Option<StateRef>)
        ensures
            state_number(r) == first_named(state_names(self.all_states()), name@),
            r matches Some(state) ==> self.knows_state(state),
    {
        proof {
            use_type_invariant(self);
        }
        let ghost names = state_names(self.all_states());
        let n: usize = self.states.len();
        let mut i: usize = 0;
        while i < n
            invariant
                names == state_names(self.all_states()),
                n == self.all_states().len(),
                n <= u32::MAX,
                i <= n,
                forall|j: int| 0 <= j < i ==> names[j] != name@,
            decreases n - i,
        {
            let state = StateRef(i as u32);
            if same_text(self.states.get(state).name.as_str(), name) {
                proof {
                    lemma_first_named(names, name@, i as int);
                }
                return Some(state);
            }
            i = i + 1;
        }
        proof {
            lemma_none_named(names, name@);
        }
        None
    }

    /// The first operation of the name `name`.
    pub fn get_op(&self, name: &str) -> (r: Option<OpRef>)
        ensures
            op_number(r) == first_named(op_names(self.operations()), name@),
            r matches Some(op) ==> self.knows_op(op),
    {
        proof {
            use_type_invariant(self);
        }
        let ghost names = op_names(self.operations());
        let n: usize = self.ops.len();
        let mut i: usize = 0;
        while i < n
            invariant
                names == op_names(self.operations()),
                n == self.operations().len(),
                n <= u32::MAX,
                i <= n,
                forall|j: int| 0 <= j < i ==> names[j] != name@,
            decreases n - i,
        {
            let op = OpRef(i as u32);
            if same_text(self.ops.get(op).name.as_str(), name) {
                proof {
                    lemma_first_named(names, name@, i as int);
                }
                return Some(op);
            }
            i = i + 1;
        }
        proof {
            lemma_none_named(names, name@);
        }
        None
    }

    /// The first setup of the name `name`.
    pub fn get_setup(&self, name: &str) -> (r: Option<SetupRef>)
        ensures
            setup_number(r) == first_named(setup_names(self.all_setups()), name@),
            r matches Some(setup) ==> self.knows_setup(setup),
    {
        proof {
            use_type_invariant(self);
        }
        let ghost names = setup_names(self.all_setups());
        let n: usize = self.setups.len();
        let mut i: usize = 0;
        while i < n
            invariant
                names == setup_names(self.all_setups()),
                n == self.all_setups().len(),
                n <= u32::MAX,
                i <= n,
                forall|j: int| 0 <= j < i ==> names[j] != name@,
            decreases n - i,
        {
            let setup = SetupRef(i as u32);
            if same_text(self.setups.get(setup).name.as_str(), name) {
                proof {
                    lemma_first_named(names, name@, i as int);
                }
                return Some(setup);
            }
            i = i + 1;
        }
        proof {
            lemma_none_named(names, name@);
        }
        None
    }

    /// The working directory to use when running a build.
    pub fn default_workdir(&self) -> (r: String)
        ensures
            r@ == "."@ + self.name_text(),
    {
        String::from_str(".").concat(self.name.as_str())
    }
}

/// The texts of a list of string slices.
pub open spec fn texts(items: Seq<&str>) -> Seq<Seq<char>> {
    items.map_values(|item: &str| item@)
}

/// The texts of a list of strings.
pub open spec fn string_texts(items: Seq<String>) -> Seq<Seq<char>> {
    items.map_values(|item: String| item@)
}

/// Copies each slice into a string of its own.
pub fn owned(items: &[&str]) -> (r: Vec<String>)
    ensures
        string_texts(r@) == texts(items@),
{
    let mut r: Vec<String> = Vec::new();
    let mut i: usize = 0;
    while i < items.len()
        invariant
            i <= items.len(),
            r@.len() == i,
            forall|j: int| 0 <= j < i ==> (#[trigger] r@[j])@ == items@[j]@,
        decreases items.len() - i,
    {
        r.push(String::from_str(items[i]));
        i = i + 1;
    }
    assert(string_texts(r@) =~= texts(items@));
    r
}

/// Copies a list of handles of setups.
pub fn copied(items: &[SetupRef]) -> (r: Vec<SetupRef>)
    ensures
        r@ == items@,
{
    let mut r: Vec<SetupRef> = Vec::new();
    let mut i: usize = 0;
    while i < items.len()
        invariant
            i <= items.len(),
            r@ == items@.take(i as int),
        decreases items.len() - i,
    {
        r.push(items[i]);
        assert(r@ =~= items@.take(i + 1));
        i = i + 1;
    }
    assert(items@.take(i as int) =~= items@);
    r
}

impl DriverBuilder {
    /// The states registered so far.
    pub closed spec fn all_states(&self) -> Seq<State> {
        state_entries(self.states)
    }

    /// The operations registered so far.
    pub closed spec fn operations(&self) -> Seq<Operation> {
        op_entries(self.ops)
    }

    /// The setups registered so far.
    pub closed spec fn all_setups(&self) -> Seq<Setup> {
        setup_entries(self.setups)
    }

    /// The name of the catalog.
    pub closed spec fn name_text(&self) -> Seq<char> {
        self.name@
    }

    /// `state` is a handle that this builder gave out.
    pub open spec fn knows_state(&self, state: StateRef) -> bool {
        state.0 < self.all_states().len()
    }

    /// `setup` is a handle that this builder gave out.
    pub open spec fn knows_setup(&self, setup: SetupRef) -> bool {
        setup.0 < self.all_setups().len()
    }

    /// Every setup in the list is a handle that this builder gave out.
    pub open spec fn knows_setups(&self, setups: Seq<SetupRef>) -> bool {
        forall|i: int| 0 <= i < setups.len() ==> self.knows_setup(#[trigger] setups[i])
    }

    /// What holds of every builder: it is not over its capacity, and every
    /// handle in an operation resolves to an entry.
    pub open spec fn wf(&self) -> bool {
        &&& self.all_states().len() <= CAPACITY
        &&& self.operations().len() <= CAPACITY
        &&& self.all_setups().len() <= CAPACITY
        &&& ops_fit(self.operations(), self.all_states().len(), self.all_setups().len())
    }

    /// Everything but the states is as in `before`.
    pub open spec fn same_but_states(&self, before: &DriverBuilder) -> bool {
        &&& self.name_text() == before.name_text()
        &&& self.operations() == before.operations()
        &&& self.all_setups() == before.all_setups()
    }

    /// Everything but the setups is as in `before`.
    pub open spec fn same_but_setups(&self, before: &DriverBuilder) -> bool {
        &&& self.name_text() == before.name_text()
        &&& self.operations() == before.operations()
        &&& self.all_states() == before.all_states()
    }

    /// Everything but the operations is as in `before`.
    pub open spec fn same_but_ops(&self, before: &DriverBuilder) -> bool {
        &&& self.name_text() == before.name_text()
        &&& self.all_states() == before.all_states()
        &&& self.all_setups() == before.all_setups()
    }

    /// A builder for a catalog of the given name, without entries.
    pub fn new(name: &str) -> (r: Self)
        ensures
            r.wf(),
            r.name_text() == name@,
            r.all_states().len() == 0,
            r.operations().len() == 0,
            r.all_setups().len() == 0,
    {
        DriverBuilder {
            name: String::from_str(name),
            setups: SetupTable::new(),
            states: StateTable::new(),
            ops: OpTable::new(),
        }
    }

    /// The number of states registered so far.
    pub fn state_count(&self) -> (r: usize)
        ensures
            r == self.all_states().len(),
    {
        self.states.len()
    }

    /// The number of operations registered so far.
    pub fn op_count(&self) -> (r: usize)
        ensures
            r == self.operations().len(),
    {
        self.ops.len()
    }

    /// The number of setups registered so far.
    pub fn setup_count(&self) -> (r: usize)
        ensures
            r == self.all_setups().len(),
    {
        self.setups.len()
    }

    /// Registers a state with its extensions, the first of which names the
    /// files that are generated in this state.
    pub fn state(&mut self, name: &str, extensions: &[&str]) -> (r: StateRef)
        requires
            old(self).wf(),
            old(self).all_states().len() < CAPACITY,
        ensures
            final(self).wf(),
            r.0 == old(self).all_states().len(),
            final(self).all_states().len() == old(self).all_states().len() + 1,
            final(self).all_states().drop_last() == old(self).all_states(),
            final(self).all_states().last().name@ == name@,
            string_texts(final(self).all_states().last().extensions@) == texts(extensions@),
            final(self).same_but_states(old(self)),
    {
        let entry = State { name: String::from_str(name), extensions: owned(extensions) };
        let r = self.states.push(entry);
        proof {
            assert(self.all_states().drop_last() =~= old(self).all_states());
            assert forall|i: int| 0 <= i < self.operations().len() implies op_fits(
                #[trigger] self.operations()[i],
                self.all_states().len(),
                self.all_setups().len(),
            ) by {
                assert(op_fits(
                    old(self).operations()[i],
                    old(self).all_states().len(),
                    old(self).all_setups().len(),
                ));
            }
        }
        r
    }

    /// Registers an operation from `input` to `output` that depends on
    /// `setups` and emits its build command with `emit`.
    pub fn add_op<T: EmitBuild + 'static>(
        &mut self,
        name: &str,
        setups: &[SetupRef],
        input: StateRef,
        output: StateRef,
        emit: T,
    ) -> (r: OpRef)
        requires
            old(self).wf(),
            old(self).operations().len() < CAPACITY,
            old(self).knows_state(input),
            old(self).knows_state(output),
            old(self).knows_setups(setups@),
        ensures
            final(self).wf(),
            r.0 == old(self).operations().len(),
            final(self).operations().len() == old(self).operations().len() + 1,
            final(self).operations().drop_last() == old(self).operations(),
            final(self).operations().last().name@ == name@,
            final(self).operations().last().input == input,
            final(self).operations().last().output == output,
            final(self).operations().last().setups@ == setups@,
            final(self).same_but_ops(old(self)),
    {
        let entry = Operation::new(String::from_str(name), copied(setups), input, output, emit);
        let r = self.push_op(entry);
        proof {
            assert(self.operations().drop_last() =~= old(self).operations());
        }
        r
    }

    /// Registers a setup that emits its stanza with `emit`.
    pub fn add_setup<T: EmitSetup + 'static>(&mut self, name: &str, emit: T) -> (r: SetupRef)
        requires
            old(self).wf(),
            old(self).all_setups().len() < CAPACITY,
        ensures
            final(self).wf(),
            r.0 == old(self).all_setups().len(),
            final(self).all_setups().len() == old(self).all_setups().len() + 1,
            final(self).all_setups().drop_last() == old(self).all_setups(),
            final(self).all_setups().last().name@ == name@,
            final(self).same_but_setups(old(self)),
    {
        let entry = Setup::new(String::from_str(name), emit);
        let r = self.setups.push(entry);
        proof {
            assert(self.all_setups().drop_last() =~= old(self).all_setups());
            assert forall|i: int| 0 <= i < self.operations().len() implies op_fits(
                #[trigger] self.operations()[i],
                self.all_states().len(),
                self.all_setups().len(),
            ) by {
                assert(op_fits(
                    old(self).operations()[i],
                    old(self).all_states().len(),
                    old(self).all_setups().len(),
                ));
            }
        }
        r
    }

    /// Registers a setup; the same as `add_setup`.
    pub fn setup<T: EmitSetup + 'static>(&mut self, name: &str, func: T) -> (r: SetupRef)
        requires
            old(self).wf(),
            old(self).all_setups().len() < CAPACITY,
        ensures
            final(self).wf(),
            r.0 == old(self).all_setups().len(),
            final(self).all_setups().len() == old(self).all_setups().len() + 1,
            final(self).all_setups().drop_last() == old(self).all_setups(),
            final(self).all_setups().last().name@ == name@,
            final(self).same_but_setups(old(self)),
    {
        self.add_setup(name, func)
    }

    /// Registers an operation; the same as `add_op`.
    pub fn op<T: EmitBuild + 'static>(
        &mut self,
        name: &str,
        setups: &[SetupRef],
        input: StateRef,
        output: StateRef,
        build: T,
    ) -> (r: OpRef)
        requires
            old(self).wf(),
            old(self).operations().len() < CAPACITY,
            old(self).knows_state(input),
            old(self).knows_state(output),
            old(self).knows_setups(setups@),
        ensures
            final(self).wf(),
            r.0 == old(self).operations().len(),
            final(self).operations().len() == old(self).operations().len() + 1,
            final(self).operations().drop_last() == old(self).operations(),
            final(self).operations().last().name@ == name@,
            final(self).operations().last().input == input,
            final(self).operations().last().output == output,
            final(self).operations().last().setups@ == setups@,
            final(self).same_but_ops(old(self)),
    {
        self.add_op(name, setups, input, output, build)
    }

    /// Registers an operation of the name `rule_name` whose build command
    /// applies the rule of that name to one input and one output.
    pub fn rule(
        &mut self,
        setups: &[SetupRef],
        input: StateRef,
        output: StateRef,
        rule_name: &str,
    ) -> (r: OpRef)
        requires
            old(self).wf(),
            old(self).operations().len() < CAPACITY,
            old(self).knows_state(input),
            old(self).knows_state(output),
            old(self).knows_setups(setups@),
        ensures
            final(self).wf(),
            r.0 == old(self).operations().len(),
            final(self).operations().len() == old(self).operations().len() + 1,
            final(self).operations().drop_last() == old(self).operations(),
            final(self).operations().last().name@ == rule_name@,
            final(self).operations().last().input == input,
            final(self).operations().last().output == output,
            final(self).operations().last().setups@ == setups@,
            forall|from: Seq<char>, to: Seq<char>| #[trigger]
                final(self).operations().last().emit.text(from, to) == Some(
                    crate::emitter::edge_line(rule_name@, from, to),
                ),
            final(self).same_but_ops(old(self)),
    {
        let entry = Operation::rule(
            String::from_str(rule_name),
            copied(setups),
            input,
            output,
            String::from_str(rule_name),
        );
        let r = self.push_op(entry);
        proof {
            assert(self.operations().drop_last() =~= old(self).operations());
        }
        r
    }

    /// Puts an operation behind the ones registered so far.
    fn push_op(&mut self, entry: Operation) -> (r: OpRef)
        requires
            old(self).wf(),
            old(self).operations().len() < CAPACITY,
            old(self).knows_state(entry.input),
            old(self).knows_state(entry.output),
            old(self).knows_setups(entry.setups@),
        ensures
            final(self).wf(),
            r.0 == old(self).operations().len(),
            final(self).operations() == old(self).operations().push(entry),
            final(self).same_but_ops(old(self)),
    {
        let r = self.ops.push(entry);
        proof {
            assert forall|i: int| 0 <= i < self.operations().len() implies op_fits(
                #[trigger] self.operations()[i],
                self.all_states().len(),
                self.all_setups().len(),
            ) by {
                if i < old(self).operations().len() {
                    assert(op_fits(
                        old(self).operations()[i],
                        old(self).all_states().len(),
                        old(self).all_setups().len(),
                    ));
                } else {
                    assert forall|j: int| 0 <= j < entry.setups@.len() implies (
                    #[trigger] entry.setups@[j]).0 < self.all_setups().len() by {
                        assert(old(self).knows_setup(entry.setups@[j]));
                    }
                }
            }
        }
        r
    }

    /// Freezes the catalog. Behind the entries of the builder the catalog
    /// holds two states without extensions, `null-in` and `null-out`, and for
    /// standard input and standard output a setup and an operation each, named
    /// `stdin` and `stdout`.
    pub fn build(self) -> (r: Driver)
        requires
            self.wf(),
        ensures
            r.wf(),
            r.name_text() == self.name_text(),
            r.all_states().len() == self.all_states().len() + 2,
            r.all_states().take(self.all_states().len() as int) == self.all_states(),
            r.all_states()[self.all_states().len() as int].name@ == "null-in"@,
            r.all_states()[self.all_states().len() as int + 1].name@ == "null-out"@,
            r.operations().len() == self.operations().len() + 2,
            r.operations().take(self.operations().len() as int) == self.operations(),
            r.all_setups().len() == self.all_setups().len() + 2,
            r.all_setups().take(self.all_setups().len() as int) == self.all_setups(),
            r.stdin_ref().0 == self.operations().len(),
            r.stdout_ref().0 == self.operations().len() + 1,
            r.operations()[r.stdin_ref().0 as int].input.0 == self.all_states().len(),
            r.operations()[r.stdout_ref().0 as int].input.0 == self.all_states().len() + 1,
    {
        let ghost old_states = self.all_states();
        let ghost old_ops = self.operations();
        let ghost old_setups = self.all_setups();
        let DriverBuilder { name, setups, states, ops } = self;
        let mut setups = setups;
        let mut states = states;
        let mut ops = ops;

        let null_in = states.push(State { name: String::from_str("null-in"), extensions: Vec::new() });
        let null_out = states.push(
            State { name: String::from_str("null-out"), extensions: Vec::new() },
        );
        let capture = setups.push(Setup::capture(String::from_str("stdin")));
        let show = setups.push(Setup::show(String::from_str("stdout")));
        let mut capture_setups: Vec<SetupRef> = Vec::new();
        capture_setups.push(capture);
        let mut show_setups: Vec<SetupRef> = Vec::new();
        show_setups.push(show);
        let stdin_op = ops.push(Operation::capture(String::from_str("stdin"), capture_setups, null_in));
        let stdout_op = ops.push(Operation::show(String::from_str("stdout"), show_setups, null_out));
        proof {
            let all_ops = op_entries(ops);
            let n_states = state_entries(states).len();
            let n_setups = setup_entries(setups).len();
            assert(state_entries(states).take(old_states.len() as int) =~= old_states);
            assert(all_ops.take(old_ops.len() as int) =~= old_ops);
            assert(setup_entries(setups).take(old_setups.len() as int) =~= old_setups);
            assert forall|i: int| 0 <= i < all_ops.len() implies op_fits(
                #[trigger] all_ops[i],
                n_states,
                n_setups,
            ) by {
                if i < old_ops.len() {
                    assert(op_fits(old_ops[i], old_states.len(), old_setups.len()));
                    assert(all_ops[i] == old_ops[i]);
                }
            }
        }
        Driver { name, setups, states, ops, stdin_op, stdout_op }
    }
}

} // verus!
