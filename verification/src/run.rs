//! A run: a catalog, a plan and a configuration bound together, and what
//! becomes of them: the build script, and the reports on the plan.

use crate::callbacks::{CaptureBuild, CaptureSetup, EmitBuild, EmitSetup, ShowBuild, ShowSetup};
use crate::catalog::{Operation, Setup};
use crate::config::GlobalConfig;
use crate::driver::Driver;
use crate::emitter::comment_line;
pub use crate::emitter::{EmitError, EmitResult, Emitter};
use crate::plan::Plan;
use crate::refs::{OpRef, SetupRef};
use crate::text::lemma_join_assoc;
use figment::Figment;
use std::collections::HashSet;
use vstd::prelude::*;

verus! {

/// A plan bound to the catalog that made it and to a configuration.
pub struct Run<'a> {
    pub driver: &'a Driver,
    pub plan: Plan,
    pub config_data: Figment,
    pub global_config: GlobalConfig,
}

/// What an emission leaves: the build script, and the files that the
/// callbacks want in the working directory beside it.
pub struct Emitted {
    pub script: String,
    pub files: Vec<(String, Vec<u8>)>,
}

/// The setups that the operations of `chain` name, one operation after the
/// other and each operation's setups in its own order.
pub open spec fn wanted_setups(ops: Seq<Operation>, chain: Seq<OpRef>) -> Seq<SetupRef>
    decreases chain.len(),
{
    if chain.len() == 0 {
        Seq::empty()
    } else {
        wanted_setups(ops, chain.drop_last()) + ops[chain.last().0 as int].setups@
    }
}

/// `items` without repetitions: each item where it stands first.
pub open spec fn first_occurrences(items: Seq<SetupRef>) -> Seq<SetupRef>
    decreases items.len(),
{
    if items.len() == 0 {
        Seq::empty()
    } else {
        let before = first_occurrences(items.drop_last());
        if before.contains(items.last()) {
            before
        } else {
            before.push(items.last())
        }
    }
}

/// The names of the setups `order`, in that order.
pub open spec fn names_of(setups: Seq<Setup>, order: Seq<SetupRef>) -> Seq<Seq<char>> {
    order.map_values(|setup: SetupRef| setups[setup.0 as int].name@)
}

/// One setup stanza: the name as a comment, what the setup wrote, and a
/// blank line.
pub open spec fn stanza(name: Seq<char>, body: Seq<char>) -> Seq<char> {
    comment_line(name) + body + "\n"@
}

/// The stanzas of the setups with these names and bodies, one after the
/// other.
pub open spec fn stanzas(names: Seq<Seq<char>>, bodies: Seq<Seq<char>>) -> Seq<char>
    decreases names.len(),
{
    if names.len() == 0 || bodies.len() == 0 {
        Seq::empty()
    } else {
        stanzas(names.drop_last(), bodies.drop_last()) + stanza(names.last(), bodies.last())
    }
}

/// The texts of `parts`, one after the other.
pub open spec fn joined(parts: Seq<Seq<char>>) -> Seq<char>
    decreases parts.len(),
{
    if parts.len() == 0 {
        Seq::empty()
    } else {
        joined(parts.drop_last()) + parts.last()
    }
}

/// The line that makes `target` the default target.
pub open spec fn default_line(target: Seq<char>) -> Seq<char> {
    "default "@ + target + "\n"@
}

/// A build script: the setup stanzas, the heading of the build targets, the
/// build edges, a blank line, and the default target.
pub open spec fn script_text(
    names: Seq<Seq<char>>,
    bodies: Seq<Seq<char>>,
    edges: Seq<Seq<char>>,
    target: Seq<char>,
) -> Seq<char> {
    stanzas(names, bodies) + comment_line("build targets"@) + joined(edges) + "\n"@ + default_line(
        target,
    )
}

/// Nothing occurs twice in the first occurrences of a list, and what occurs
/// in them is what occurs in the list.
pub proof fn lemma_first_occurrences(items: Seq<SetupRef>)
    ensures
        first_occurrences(items).no_duplicates(),
        forall|setup: SetupRef| first_occurrences(items).contains(setup) == items.contains(setup),
        first_occurrences(items).len() == items.to_set().len(),
    decreases items.len(),
{
    let firsts = first_occurrences(items);
    if items.len() == 0 {
        assert(items.to_set() =~= Set::<SetupRef>::empty());
    } else {
        let shorter = items.drop_last();
        let last = items.last();
        let before = first_occurrences(shorter);
        lemma_first_occurrences(shorter);
        assert forall|setup: SetupRef| firsts.contains(setup) == items.contains(setup) by {
            if items.contains(setup) {
                let i = choose|i: int| 0 <= i < items.len() && items[i] == setup;
                if i < shorter.len() {
                    assert(shorter[i] == setup);
                    assert(shorter.contains(setup));
                    assert(before.contains(setup));
                    let j = choose|j: int| 0 <= j < before.len() && before[j] == setup;
                    assert(firsts[j] == setup);
                } else {
                    if !before.contains(last) {
                        assert(firsts[before.len() as int] == setup);
                    }
                }
            }
            if firsts.contains(setup) {
                let j = choose|j: int| 0 <= j < firsts.len() && firsts[j] == setup;
                if j < before.len() {
                    assert(before[j] == setup);
                    assert(shorter.contains(setup));
                    let i = choose|i: int| 0 <= i < shorter.len() && shorter[i] == setup;
                    assert(items[i] == setup);
                } else {
                    assert(items[items.len() - 1] == setup);
                }
            }
        }
        assert(firsts.no_duplicates()) by {
            if !before.contains(last) {
                assert forall|i: int, j: int|
                    0 <= i < firsts.len() && 0 <= j < firsts.len() && i != j implies firsts[i]
                    != firsts[j] by {
                    if i < before.len() && j < before.len() {
                    } else if i < before.len() {
                        assert(before[i] == firsts[i]);
                    } else {
                        assert(before[j] == firsts[j]);
                    }
                }
            }
        }
        firsts.unique_seq_to_set();
        assert(firsts.to_set() =~= items.to_set());
    }
}

impl<'a> Run<'a> {
    /// The operations of the steps of the plan.
    pub open spec fn chain(&self) -> Seq<OpRef> {
        self.plan@.chain()
    }

    /// The setups that get a stanza, in the order of the stanzas: each setup
    /// that an operation of the plan names, where it is named first.
    pub open spec fn stanza_order(&self) -> Seq<SetupRef> {
        first_occurrences(wanted_setups(self.driver.operations(), self.chain()))
    }

    /// The file that step `at` reads: the start file, or what the step before
    /// it wrote.
    pub open spec fn input_of(&self, at: int) -> Seq<char> {
        step_input(self.plan@, at)
    }

    /// The text that the setup of stanza `at` is known to write, if any is.
    pub open spec fn body_text(&self, at: int) -> Option<Seq<char>> {
        self.driver.all_setups()[self.stanza_order()[at].0 as int].emit.text()
    }

    /// The text that the operation of step `at` is known to write, if any is.
    pub open spec fn edge_text(&self, at: int) -> Option<Seq<char>> {
        step_text(self.driver.operations(), self.plan@, at)
    }

    /// `script` is the build script of this run where the setups wrote
    /// `bodies` and the operations wrote `edges`: one body for each stanza and
    /// one edge for each step, each of them the text that its callback is known
    /// to write where that is known.
    pub open spec fn explains(
        &self,
        bodies: Seq<Seq<char>>,
        edges: Seq<Seq<char>>,
        script: Seq<char>,
    ) -> bool {
        &&& bodies.len() == self.stanza_order().len()
        &&& edges.len() == self.plan@.steps.len()
        &&& forall|i: int|
            0 <= i < bodies.len() ==> (self.body_text(i) matches Some(text) ==> #[trigger] bodies[i]
                == text)
        &&& forall|j: int|
            0 <= j < edges.len() ==> (self.edge_text(j) matches Some(text) ==> #[trigger] edges[j]
                == text)
        &&& script == script_text(
            names_of(self.driver.all_setups(), self.stanza_order()),
            bodies,
            edges,
            self.plan@.end(),
        )
    }

    /// `script` is the build script of this run for some texts that the
    /// callbacks may have written.
    pub open spec fn explained(&self, script: Seq<char>) -> bool {
        exists|bodies: Seq<Seq<char>>, edges: Seq<Seq<char>>| self.explains(bodies, edges, script)
    }

    /// The text of every callback that the plan uses is known.
    pub open spec fn all_known(&self) -> bool {
        &&& forall|i: int| 0 <= i < self.stanza_order().len() ==> #[trigger] self.body_text(i) is Some
        &&& forall|j: int| 0 <= j < self.plan@.steps.len() ==> #[trigger] self.edge_text(j) is Some
    }

    /// The build script of a run whose callbacks are all known.
    pub open spec fn known_script(&self) -> Seq<char> {
        script_text(
            names_of(self.driver.all_setups(), self.stanza_order()),
            Seq::new(self.stanza_order().len(), |i: int| self.body_text(i).unwrap()),
            Seq::new(self.plan@.steps.len(), |j: int| self.edge_text(j).unwrap()),
            self.plan@.end(),
        )
    }

    /// Binds a plan to the catalog that made it and to a configuration.
    pub fn new(
        driver: &'a Driver,
        plan: Plan,
        config_data: Figment,
        global_config: GlobalConfig,
    ) -> (r: Self)
        requires
            driver.fits(plan),
        ensures
            r.driver == driver,
            r.plan == plan,
            r.config_data == config_data,
            r.global_config == global_config,
    {
        Run { driver, plan, config_data, global_config }
    }
}

/// The setups wanted by the first operations of a chain and by the next
/// operation after them.
pub proof fn lemma_wanted_take(ops: Seq<Operation>, chain: Seq<OpRef>, count: int)
    requires
        0 <= count < chain.len(),
    ensures
        wanted_setups(ops, chain.take(count + 1)) == wanted_setups(ops, chain.take(count))
            + ops[chain[count].0 as int].setups@,
{
    assert(chain.take(count + 1).drop_last() =~= chain.take(count));
}

/// The setups wanted by the first operations of a chain are the first setups
/// wanted by the chain.
pub proof fn lemma_wanted_prefix(ops: Seq<Operation>, chain: Seq<OpRef>, count: int)
    requires
        0 <= count <= chain.len(),
    ensures
        wanted_setups(ops, chain.take(count)).is_prefix_of(wanted_setups(ops, chain)),
    decreases chain.len() - count,
{
    if count == chain.len() {
        assert(chain.take(count) =~= chain);
    } else {
        lemma_wanted_take(ops, chain, count);
        lemma_wanted_prefix(ops, chain, count + 1);
    }
}

/// The first occurrences in the beginning of a list are the beginning of the
/// first occurrences in the list.
pub proof fn lemma_firsts_prefix(part: Seq<SetupRef>, whole: Seq<SetupRef>)
    requires
        part.is_prefix_of(whole),
    ensures
        first_occurrences(part).is_prefix_of(first_occurrences(whole)),
    decreases whole.len(),
{
    if part.len() == whole.len() {
        assert(part =~= whole);
    } else {
        assert(part.is_prefix_of(whole.drop_last()));
        lemma_firsts_prefix(part, whole.drop_last());
    }
}

/// What follows `before` in a text that starts with it.
pub open spec fn added(before: Seq<char>, after: Seq<char>) -> Seq<char> {
    after.skip(before.len() as int)
}

/// A text that starts with `before` is `before` and what follows it.
pub proof fn lemma_added(before: Seq<char>, after: Seq<char>)
    requires
        before.is_prefix_of(after),
    ensures
        after == before + added(before, after),
{
    assert(after =~= before + added(before, after));
}

/// What follows `before` in `before + text` is `text`.
pub proof fn lemma_added_is(before: Seq<char>, text: Seq<char>)
    ensures
        added(before, before + text) == text,
{
    assert(added(before, before + text) =~= text);
}

impl<'a> Run<'a> {
    /// Where the text of every callback is known, the script that they
    /// explain is the known script.
    pub proof fn lemma_known_script(
        &self,
        bodies: Seq<Seq<char>>,
        edges: Seq<Seq<char>>,
        script: Seq<char>,
    )
        requires
            self.all_known(),
            self.explains(bodies, edges, script),
        ensures
            script == self.known_script(),
    {
        let known_bodies = Seq::new(self.stanza_order().len(), |i: int| self.body_text(i).unwrap());
        let known_edges = Seq::new(self.plan@.steps.len(), |j: int| self.edge_text(j).unwrap());
        assert(bodies =~= known_bodies) by {
            assert forall|i: int| 0 <= i < bodies.len() implies bodies[i] == known_bodies[i] by {
                assert(self.body_text(i) is Some);
            }
        }
        assert(edges =~= known_edges) by {
            assert forall|j: int| 0 <= j < edges.len() implies edges[j] == known_edges[j] by {
                assert(self.edge_text(j) is Some);
            }
        }
    }

    /// Each setup that an operation of the plan names gets one stanza: no
    /// setup has two, and the stanzas are as many as the setups named, however
    /// often each is named.
    pub proof fn lemma_one_stanza_each(&self)
        ensures
            self.stanza_order().no_duplicates(),
            forall|setup: SetupRef|
                self.stanza_order().contains(setup) == wanted_setups(
                    self.driver.operations(),
                    self.chain(),
                ).contains(setup),
            self.stanza_order().len() == wanted_setups(
                self.driver.operations(),
                self.chain(),
            ).to_set().len(),
    {
        lemma_first_occurrences(wanted_setups(self.driver.operations(), self.chain()));
    }

    /// Emits the build script: for each setup that an operation of the plan
    /// names, once, its stanza; then the build command of each step; then the
    /// default target. Fails where a callback fails.
    pub fn emit(self) -> (r: Result<Emitted, EmitError>)
        requires
            self.driver.fits(self.plan),
        ensures
            match r {
                Ok(out) => self.explained(out.script@),
                Err(_) => !self.all_known(),
            },
            self.all_known() ==> (r matches Ok(out) && out.script@ == self.known_script()
                && out.files@.len() == 0),
    {
        let mut emitter = Emitter::new(
            self.config_data,
            self.global_config,
            self.plan.workdir.clone(),
        );

        // Emit the setup for each operation used in the plan, only once.
        let Ghost(bodies) = match emit_setups(self.driver, &self.plan, &mut emitter) {
            Ok(bodies) => bodies,
            Err(e) => {
                proof {
                    let at = choose|i: int|
                        0 <= i < self.stanza_order().len() && !#[trigger] body_known(
                            self.driver.all_setups(),
                            self.stanza_order(),
                            i,
                        );
                    assert(self.body_text(at) is None);
                }
                return Err(e);
            },
        };

        // Emit the build commands for each step in the plan.
        let _ = emitter.comment("build targets");
        let Ghost(edges) = match emit_builds(self.driver, &self.plan, &mut emitter) {
            Ok(edges) => edges,
            Err(e) => {
                proof {
                    let at = choose|j: int|
                        0 <= j < self.plan@.steps.len() && !#[trigger] edge_known(
                            self.driver.operations(),
                            self.plan@,
                            j,
                        );
                    assert(self.edge_text(at) is None);
                }
                return Err(e);
            },
        };

        // Mark the last file as the default target.
        let tail = String::from_str("default ").concat(self.plan.end()).concat("\n");
        emitter.out.append("\n");
        emitter.out.append(tail.as_str());
        let out = Emitted { script: emitter.out, files: emitter.files };
        proof {
            assert forall|i: int| 0 <= i < bodies.len() implies (self.body_text(i) matches Some(
                text,
            ) ==> #[trigger] bodies[i] == text) by {
                assert(body_fits(self.driver.all_setups(), self.stanza_order(), bodies, i));
            }
            assert forall|j: int| 0 <= j < edges.len() implies (self.edge_text(j) matches Some(
                text,
            ) ==> #[trigger] edges[j] == text) by {
                assert(edge_fits(self.driver.operations(), self.plan@, edges, j));
            }
            assert(self.explains(bodies, edges, out.script@));
            if self.all_known() {
                self.lemma_known_script(bodies, edges, out.script@);
                assert forall|i: int| 0 <= i < bodies.len() implies #[trigger] body_known(
                    self.driver.all_setups(),
                    self.stanza_order(),
                    i,
                ) by {
                    assert(self.body_text(i) is Some);
                }
                assert forall|j: int| 0 <= j < edges.len() implies #[trigger] edge_known(
                    self.driver.operations(),
                    self.plan@,
                    j,
                ) by {
                    assert(self.edge_text(j) is Some);
                }
            }
        }
        Ok(out)
    }
}

/// The text that the setup of stanza `at` is known to write is the body at
/// `at`, where it is known.
pub open spec fn body_fits(
    setups: Seq<Setup>,
    order: Seq<SetupRef>,
    bodies: Seq<Seq<char>>,
    at: int,
) -> bool {
    setups[order[at].0 as int].emit.text() matches Some(text) ==> bodies[at] == text
}

/// The text that the setup of stanza `at` writes is known.
pub open spec fn body_known(setups: Seq<Setup>, order: Seq<SetupRef>, at: int) -> bool {
    setups[order[at].0 as int].emit.text() is Some
}

/// The file that step `at` of a plan reads.
pub open spec fn step_input(plan: crate::plan::PlanText, at: int) -> Seq<char> {
    if at == 0 {
        plan.start
    } else {
        plan.steps[at - 1].1
    }
}

/// The text that the operation of step `at` is known to write, if any is.
pub open spec fn step_text(ops: Seq<Operation>, plan: crate::plan::PlanText, at: int) -> Option<
    Seq<char>,
> {
    ops[plan.steps[at].0.0 as int].emit.text(step_input(plan, at), plan.steps[at].1)
}

/// The text that the operation of step `at` is known to write is the edge at
/// `at`, where it is known.
pub open spec fn edge_fits(
    ops: Seq<Operation>,
    plan: crate::plan::PlanText,
    edges: Seq<Seq<char>>,
    at: int,
) -> bool {
    step_text(ops, plan, at) matches Some(text) ==> edges[at] == text
}

/// The text that the operation of step `at` writes is known.
pub open spec fn edge_known(ops: Seq<Operation>, plan: crate::plan::PlanText, at: int) -> bool {
    step_text(ops, plan, at) is Some
}

/// One stanza more: the stanzas before it, then the stanza.
pub proof fn lemma_stanzas_push(
    names: Seq<Seq<char>>,
    bodies: Seq<Seq<char>>,
    name: Seq<char>,
    body: Seq<char>,
)
    ensures
        stanzas(names.push(name), bodies.push(body)) == stanzas(names, bodies) + stanza(name, body),
{
    assert(names.push(name).drop_last() =~= names);
    assert(bodies.push(body).drop_last() =~= bodies);
}

/// One part more: the parts before it, then the part.
pub proof fn lemma_joined_push(parts: Seq<Seq<char>>, part: Seq<char>)
    ensures
        joined(parts.push(part)) == joined(parts) + part,
{
    assert(parts.push(part).drop_last() =~= parts);
}

/// The names of a list of setups with one setup more.
pub proof fn lemma_names_push(setups: Seq<Setup>, order: Seq<SetupRef>, setup: SetupRef)
    ensures
        names_of(setups, order.push(setup)) == names_of(setups, order).push(
            setups[setup.0 as int].name@,
        ),
{
    assert(names_of(setups, order.push(setup)) =~= names_of(setups, order).push(
        setups[setup.0 as int].name@,
    ));
}

/// A setup that follows the first occurrences of what was seen is one of
/// the first occurrences of the whole list, at their end so far.
pub proof fn lemma_next_first(
    ops: Seq<Operation>,
    chain: Seq<OpRef>,
    step: int,
    seen: int,
)
    requires
        0 <= step < chain.len(),
        0 <= seen < ops[chain[step].0 as int].setups@.len(),
    ensures
        ({
            let own = ops[chain[step].0 as int].setups@;
            let before = wanted_setups(ops, chain.take(step)) + own.take(seen);
            let next = wanted_setups(ops, chain.take(step)) + own.take(seen + 1);
            &&& next.drop_last() == before
            &&& next.last() == own[seen]
            &&& first_occurrences(next).is_prefix_of(
                first_occurrences(wanted_setups(ops, chain)),
            )
        }),
{
    let own = ops[chain[step].0 as int].setups@;
    let base = wanted_setups(ops, chain.take(step));
    let before = base + own.take(seen);
    let next = base + own.take(seen + 1);
    let full = wanted_setups(ops, chain);
    assert(next.drop_last() =~= before);
    lemma_wanted_take(ops, chain, step);
    lemma_wanted_prefix(ops, chain, step + 1);
    assert(next.is_prefix_of(wanted_setups(ops, chain.take(step + 1))));
    assert(next.is_prefix_of(full));
    lemma_firsts_prefix(next, full);
}

/// A list of setups with one more holds what it held and the one more.
pub proof fn lemma_push_contains(order: Seq<SetupRef>, setup: SetupRef, other: SetupRef)
    ensures
        order.push(setup).contains(other) == (order.contains(other) || other == setup),
{
    let longer = order.push(setup);
    if order.contains(other) {
        let k = choose|k: int| 0 <= k < order.len() && order[k] == other;
        assert(longer[k] == other);
    }
    if other == setup {
        assert(longer[order.len() as int] == other);
    }
    if longer.contains(other) {
        let k = choose|k: int| 0 <= k < longer.len() && longer[k] == other;
        if k < order.len() {
            assert(order[k] == other);
        }
    }
}

/// Emits the stanza of one setup: its name as a comment, what the setup
/// writes, and a blank line. Gives back what the setup wrote.
fn emit_stanza(emitter: &mut Emitter, setup: &Setup) -> (r: Result<Ghost<Seq<char>>, EmitError>)
    ensures
        match r {
            Ok(body) => {
                &&& final(emitter).out@ == old(emitter).out@ + stanza(setup.name@, body@)
                &&& setup.emit.text() matches Some(text) ==> body@ == text && final(emitter).files
                    == old(emitter).files
            },
            Err(_) => setup.emit.text() is None,
        },
{
    let ghost start = emitter.out@;
    let _ = emitter.comment(setup.name.as_str());
    let ghost before = emitter.out@;
    match setup.emit.setup(emitter) {
        Ok(_) => {},
        Err(e) => {
            return Err(e);
        },
    }
    let ghost after = emitter.out@;
    emitter.out.append("\n");
    let ghost body = added(before, after);
    proof {
        lemma_added(before, after);
        if setup.emit.text() is Some {
            lemma_added_is(before, setup.emit.text().unwrap());
        }
        let comment = comment_line(setup.name@);
        lemma_join_assoc(start, comment, body);
        lemma_join_assoc(start, comment + body, "\n"@);
    }
    Ok(Ghost(body))
}

/// Emits the stanzas of the setups that the operations of the plan name,
/// each once, where it is named first. Gives back what the setups wrote.
fn emit_setups(driver: &Driver, plan: &Plan, emitter: &mut Emitter) -> (r: Result<
    Ghost<Seq<Seq<char>>>,
    EmitError,
>)
    requires
        driver.fits(*plan),
        old(emitter).out@.len() == 0,
        old(emitter).files@.len() == 0,
    ensures
        match r {
            Ok(bodies) => {
                let order = first_occurrences(wanted_setups(driver.operations(), plan@.chain()));
                &&& bodies@.len() == order.len()
                &&& forall|i: int|
                    0 <= i < order.len() ==> #[trigger] body_fits(
                        driver.all_setups(),
                        order,
                        bodies@,
                        i,
                    )
                &&& final(emitter).out@ == stanzas(names_of(driver.all_setups(), order), bodies@)
                &&& (forall|i: int|
                    0 <= i < order.len() ==> #[trigger] body_known(driver.all_setups(), order, i))
                    ==> final(emitter).files@.len() == 0
            },
            Err(_) => {
                let order = first_occurrences(wanted_setups(driver.operations(), plan@.chain()));
                exists|i: int| 0 <= i < order.len() && !#[trigger] body_known(
                    driver.all_setups(),
                    order,
                    i,
                )
            },
        },
{
    broadcast use vstd::std_specs::hash::group_hash_axioms;

    let ghost ops = driver.operations();
    let ghost setups = driver.all_setups();
    let ghost chain = plan@.chain();
    let ghost full = first_occurrences(wanted_setups(ops, chain));
    let mut done_setups = HashSet::<u32>::new();
    let ghost mut order: Seq<SetupRef> = Seq::empty();
    let ghost mut bodies: Seq<Seq<char>> = Seq::empty();
    let mut i: usize = 0;
    proof {
        assert(chain.take(0) =~= Seq::<OpRef>::empty());
        assert(emitter.out@ =~= Seq::<char>::empty());
        assert(names_of(setups, order) =~= Seq::<Seq<char>>::empty());
    }
    while i < plan.steps.len()
        invariant
            i <= plan.steps.len(),
            driver.fits(*plan),
            ops == driver.operations(),
            setups == driver.all_setups(),
            chain == plan@.chain(),
            chain.len() == plan.steps@.len(),
            full == first_occurrences(wanted_setups(ops, chain)),
            order == first_occurrences(wanted_setups(ops, chain.take(i as int))),
            forall|n: u32| done_setups@.contains(n) == #[trigger] order.contains(SetupRef(n)),
            bodies.len() == order.len(),
            forall|k: int| 0 <= k < order.len() ==> #[trigger] body_fits(setups, order, bodies, k),
            emitter.out@ == stanzas(names_of(setups, order), bodies),
            (forall|k: int| 0 <= k < order.len() ==> #[trigger] body_known(setups, order, k))
                ==> emitter.files@.len() == 0,
        decreases plan.steps.len() - i,
    {
        let op_ref = plan.steps[i].0;
        assert(chain[i as int] == op_ref);
        let op = driver.op(op_ref);
        let ghost base = wanted_setups(ops, chain.take(i as int));
        let mut j: usize = 0;
        assert(base + op.setups@.take(0) =~= base);
        while j < op.setups.len()
            invariant
                j <= op.setups.len(),
                i < chain.len(),
                ops == driver.operations(),
                setups == driver.all_setups(),
                chain == plan@.chain(),
                *op == ops[chain[i as int].0 as int],
                crate::driver::op_fits(*op, driver.all_states().len(), setups.len()),
                base == wanted_setups(ops, chain.take(i as int)),
                full == first_occurrences(wanted_setups(ops, chain)),
                order == first_occurrences(base + op.setups@.take(j as int)),
                forall|n: u32| done_setups@.contains(n) == #[trigger] order.contains(SetupRef(n)),
                bodies.len() == order.len(),
                forall|k: int|
                    0 <= k < order.len() ==> #[trigger] body_fits(setups, order, bodies, k),
                emitter.out@ == stanzas(names_of(setups, order), bodies),
                (forall|k: int| 0 <= k < order.len() ==> #[trigger] body_known(setups, order, k))
                    ==> emitter.files@.len() == 0,
            decreases op.setups.len() - j,
        {
            let setup_ref = op.setups[j];
            proof {
                lemma_next_first(ops, chain, i as int, j as int);
                assert(order.contains(SetupRef(setup_ref.0)) == order.contains(setup_ref));
            }
            if done_setups.insert(setup_ref.0) {
                let ghost old_order = order;
                let ghost old_bodies = bodies;
                let ghost files_before = emitter.files;
                let ghost longer = old_order.push(setup_ref);
                proof {
                    let at = old_order.len() as int;
                    assert(longer.is_prefix_of(full));
                    assert(full.subrange(0, longer.len() as int)[at] == longer[at]);
                    assert(full[at] == setup_ref);
                }
                let setup = driver.setup(setup_ref);
                let Ghost(body) = match emit_stanza(emitter, setup) {
                    Ok(body) => body,
                    Err(e) => {
                        proof {
                            let at = old_order.len() as int;
                            assert(0 <= at < full.len());
                            assert(!body_known(setups, full, at));
                        }
                        return Err(e);
                    },
                };
                proof {
                    order = longer;
                    bodies = old_bodies.push(body);
                    lemma_names_push(setups, old_order, setup_ref);
                    lemma_stanzas_push(names_of(setups, old_order), old_bodies, setup.name@, body);
                    assert forall|n: u32| done_setups@.contains(n) == #[trigger] order.contains(
                        SetupRef(n),
                    ) by {
                        lemma_push_contains(old_order, setup_ref, SetupRef(n));
                        assert(old_order.contains(SetupRef(n)) == (done_setups@.contains(n) && n
                            != setup_ref.0));
                    }
                    assert forall|k: int| 0 <= k < order.len() implies #[trigger] body_fits(
                        setups,
                        order,
                        bodies,
                        k,
                    ) by {
                        if k < old_order.len() {
                            assert(body_fits(setups, old_order, old_bodies, k));
                        }
                    }
                    if forall|k: int|
                        0 <= k < order.len() ==> #[trigger] body_known(setups, order, k) {
                        assert forall|k: int| 0 <= k < old_order.len() implies #[trigger] body_known(
                            setups,
                            old_order,
                            k,
                        ) by {
                            assert(body_known(setups, order, k));
                        }
                        assert(body_known(setups, order, old_order.len() as int));
                    }
                }
            }
            j = j + 1;
        }
        proof {
            assert(op.setups@.take(j as int) =~= op.setups@);
            lemma_wanted_take(ops, chain, i as int);
        }
        i = i + 1;
    }
    assert(chain.take(i as int) =~= chain);
    Ok(Ghost(bodies))
}

/// Emits the build command of each step of the plan. Gives back what the
/// operations wrote.
fn emit_builds(driver: &Driver, plan: &Plan, emitter: &mut Emitter) -> (r: Result<
    Ghost<Seq<Seq<char>>>,
    EmitError,
>)
    requires
        driver.fits(*plan),
    ensures
        match r {
            Ok(edges) => {
                &&& edges@.len() == plan@.steps.len()
                &&& forall|j: int|
                    0 <= j < edges@.len() ==> #[trigger] edge_fits(
                        driver.operations(),
                        plan@,
                        edges@,
                        j,
                    )
                &&& final(emitter).out@ == old(emitter).out@ + joined(edges@)
                &&& (forall|j: int|
                    0 <= j < edges@.len() ==> #[trigger] edge_known(driver.operations(), plan@, j))
                    ==> final(emitter).files == old(emitter).files
            },
            Err(_) => exists|j: int|
                0 <= j < plan@.steps.len() && !#[trigger] edge_known(driver.operations(), plan@, j),
        },
{
    let ghost ops = driver.operations();
    let ghost start = emitter.out@;
    let ghost mut edges: Seq<Seq<char>> = Seq::empty();
    let mut j: usize = 0;
    proof {
        assert(emitter.out@ =~= start + joined(edges));
    }
    while j < plan.steps.len()
        invariant
            j <= plan.steps.len(),
            driver.fits(*plan),
            ops == driver.operations(),
            plan@.steps.len() == plan.steps@.len(),
            edges.len() == j,
            forall|k: int| 0 <= k < edges.len() ==> #[trigger] edge_fits(ops, plan@, edges, k),
            emitter.out@ == start + joined(edges),
            (forall|k: int| 0 <= k < edges.len() ==> #[trigger] edge_known(ops, plan@, k))
                ==> emitter.files == old(emitter).files,
        decreases plan.steps.len() - j,
    {
        let op = driver.op(plan.steps[j].0);
        let input: &str = if j == 0 {
            plan.start.as_str()
        } else {
            plan.steps[j - 1].1.as_str()
        };
        let output: &str = plan.steps[j].1.as_str();
        proof {
            assert(input@ == step_input(plan@, j as int));
            assert(output@ == plan@.steps[j as int].1);
            assert(*op == ops[plan@.steps[j as int].0.0 as int]);
        }
        let ghost before = emitter.out@;
        let ghost files_before = emitter.files;
        match op.emit.build(emitter, input, output) {
            Ok(_) => {},
            Err(e) => {
                proof {
                    assert(!edge_known(ops, plan@, j as int));
                }
                return Err(e);
            },
        }
        proof {
            let edge = added(before, emitter.out@);
            lemma_added(before, emitter.out@);
            if step_text(ops, plan@, j as int) is Some {
                lemma_added_is(before, step_text(ops, plan@, j as int).unwrap());
            }
            let old_edges = edges;
            edges = old_edges.push(edge);
            lemma_joined_push(old_edges, edge);
            lemma_join_assoc(start, joined(old_edges), edge);
            assert forall|k: int| 0 <= k < edges.len() implies #[trigger] edge_fits(
                ops,
                plan@,
                edges,
                k,
            ) by {
                if k < old_edges.len() {
                    assert(edge_fits(ops, plan@, old_edges, k));
                }
            }
            if forall|k: int| 0 <= k < edges.len() ==> #[trigger] edge_known(ops, plan@, k) {
                assert forall|k: int| 0 <= k < old_edges.len() implies #[trigger] edge_known(
                    ops,
                    plan@,
                    k,
                ) by {}
                assert(edge_known(ops, plan@, j as int));
            }
        }
        j = j + 1;
    }
    Ok(Ghost(edges))
}

impl<'a> Run<'a> {
    /// The name that the report gives the operation of a step: `(stdin)` and
    /// `(stdout)` for the two operations of that kind, else the name of the
    /// operation.
    pub open spec fn step_name(&self, op: OpRef) -> Seq<char> {
        if op == self.driver.stdin_ref() {
            "(stdin)"@
        } else if op == self.driver.stdout_ref() {
            "(stdout)"@
        } else {
            self.driver.operations()[op.0 as int].name@
        }
    }

    /// The line of the report for step `at`.
    pub open spec fn step_line(&self, at: int) -> Seq<char> {
        let step = self.plan@.steps[at];
        step.0.label_text() + ": "@ + self.step_name(step.0) + " -> "@ + step.1 + "\n"@
    }

    /// The lines of the report for the first `count` steps.
    pub open spec fn step_lines(&self, count: int) -> Seq<char>
        decreases count,
    {
        if count <= 0 {
            Seq::empty()
        } else {
            self.step_lines(count - 1) + self.step_line(count - 1)
        }
    }

    /// The report on the plan: the start file, then one line for each step.
    pub open spec fn report(&self) -> Seq<char> {
        ("start: "@ + self.plan@.start + "\n"@) + self.step_lines(self.plan@.steps.len() as int)
    }

    /// Writes the line of the report for a step.
    fn step_text(&self, at: usize) -> (r: String)
        requires
            self.driver.fits(self.plan),
            at < self.plan.steps@.len(),
        ensures
            r@ == self.step_line(at as int),
    {
        let op = self.plan.steps[at].0;
        let name: &str = if op == self.driver.stdin_op() {
            "(stdin)"
        } else if op == self.driver.stdout_op() {
            "(stdout)"
        } else {
            self.driver.op(op).name.as_str()
        };
        assert(self.plan@.steps[at as int] == (op, self.plan.steps@[at as int].1@));
        op.label().concat(": ").concat(name).concat(" -> ").concat(
            self.plan.steps[at].1.as_str(),
        ).concat("\n")
    }

    /// Just show the plan for debugging purposes.
    pub fn show(&self) -> (r: String)
        requires
            self.driver.fits(self.plan),
        ensures
            r@ == self.report(),
    {
        let mut out = String::from_str("start: ").concat(self.plan.start.as_str()).concat("\n");
        let ghost lead = out@;
        let mut i: usize = 0;
        assert(out@ =~= lead + self.step_lines(0));
        while i < self.plan.steps.len()
            invariant
                i <= self.plan.steps.len(),
                self.driver.fits(self.plan),
                lead == "start: "@ + self.plan@.start + "\n"@,
                out@ == lead + self.step_lines(i as int),
            decreases self.plan.steps.len() - i,
        {
            let line = self.step_text(i);
            let ghost before = self.step_lines(i as int);
            out.append(line.as_str());
            assert(out@ =~= lead + (before + line@));
            i = i + 1;
        }
        out
    }

    /// The file that the report shows for a state, going by the first `count`
    /// steps: what the last of them that gives the state wrote, or the start
    /// file for the state that the first step takes.
    pub open spec fn state_file(&self, state: crate::refs::StateRef, count: int) -> Option<
        Seq<char>,
    >
        decreases count,
    {
        let ops = self.driver.operations();
        let steps = self.plan@.steps;
        if count <= 0 {
            if steps.len() > 0 && ops[steps[0].0.0 as int].input == state {
                Some(self.plan@.start)
            } else {
                None
            }
        } else if ops[steps[count - 1].0.0 as int].output == state {
            Some(steps[count - 1].1)
        } else {
            self.state_file(state, count - 1)
        }
    }

    /// The file of the plan that is in `state`, if one is.
    pub fn file_in(&self, state: crate::refs::StateRef) -> (r: Option<&str>)
        requires
            self.driver.fits(self.plan),
        ensures
            match r {
                Some(file) => self.state_file(state, self.plan@.steps.len() as int) == Some(file@),
                None => self.state_file(state, self.plan@.steps.len() as int) is None,
            },
    {
        let n: usize = self.plan.steps.len();
        let mut i: usize = n;
        while i > 0
            invariant
                i <= n,
                n == self.plan.steps@.len(),
                self.driver.fits(self.plan),
                self.state_file(state, n as int) == self.state_file(state, i as int),
            decreases i,
        {
            i = i - 1;
            let op = self.driver.op(self.plan.steps[i].0);
            proof {
                assert(self.plan@.steps[i as int] == (
                    self.plan.steps@[i as int].0,
                    self.plan.steps@[i as int].1@,
                ));
            }
            if op.output == state {
                return Some(self.plan.steps[i].1.as_str());
            }
        }
        if n > 0 {
            let first = self.driver.op(self.plan.steps[0].0);
            proof {
                assert(self.plan@.steps[0] == (self.plan.steps@[0].0, self.plan.steps@[0].1@));
            }
            if first.input == state {
                return Some(self.plan.start.as_str());
            }
        }
        None
    }

    /// A state that the graph leaves out: one that the operations for
    /// standard input and output stay in.
    pub open spec fn hidden_state(&self, state: int) -> bool {
        let ops = self.driver.operations();
        state == ops[self.driver.stdin_ref().0 as int].input.0 || state
            == ops[self.driver.stdout_ref().0 as int].input.0
    }

    /// An operation that the graph leaves out: the one for standard input and
    /// the one for standard output.
    pub open spec fn hidden_op(&self, op: int) -> bool {
        op == self.driver.stdin_ref().0 || op == self.driver.stdout_ref().0
    }

    /// The node of the graph for a state: its name, and where the plan has a
    /// file in the state, that file and a heavier outline.
    pub open spec fn node_line(&self, state: int) -> Seq<char> {
        let name = self.driver.all_states()[state].name@;
        let state_ref = crate::refs::StateRef(state as u32);
        "  "@ + state_ref.label_text() + " ["@ + (match self.state_file(
            state_ref,
            self.plan@.steps.len() as int,
        ) {
            Some(file) => "label=\""@ + name + "\n"@ + file
                + "\" penwidth=3 fillcolor=gray style=filled"@,
            None => "label=\""@ + name + "\""@,
        }) + "];\n"@
    }

    /// The nodes for the first `count` states.
    pub open spec fn node_lines(&self, count: int) -> Seq<char>
        decreases count,
    {
        if count <= 0 {
            Seq::empty()
        } else if self.hidden_state(count - 1) {
            self.node_lines(count - 1)
        } else {
            self.node_lines(count - 1) + self.node_line(count - 1)
        }
    }

    /// The edge of the graph for an operation, heavier where the plan has the
    /// operation.
    pub open spec fn edge_line(&self, op: int) -> Seq<char> {
        let entry = self.driver.operations()[op];
        "  "@ + entry.input.label_text() + " -> "@ + entry.output.label_text() + " [label=\""@
            + entry.name@ + "\""@ + (if self.chain().contains(OpRef(op as u32)) {
            " penwidth=3"@
        } else {
            Seq::<char>::empty()
        }) + "];\n"@
    }

    /// The edges for the first `count` operations.
    pub open spec fn edge_lines(&self, count: int) -> Seq<char>
        decreases count,
    {
        if count <= 0 {
            Seq::empty()
        } else if self.hidden_op(count - 1) {
            self.edge_lines(count - 1)
        } else {
            self.edge_lines(count - 1) + self.edge_line(count - 1)
        }
    }

    /// The graph of the catalog with the plan marked in it, in the language
    /// of GraphViz: a node for each state and an edge for each operation,
    /// without the states and operations for standard input and output.
    pub open spec fn graph(&self) -> Seq<char> {
        ("digraph plan {\n"@ + "  node[shape=box];\n"@) + self.node_lines(
            self.driver.all_states().len() as int,
        ) + self.edge_lines(self.driver.operations().len() as int) + "}\n"@
    }

    /// Whether the plan has a step with the operation.
    pub fn uses_op(&self, op: OpRef) -> (r: bool)
        ensures
            r == self.chain().contains(op),
    {
        let mut i: usize = 0;
        while i < self.plan.steps.len()
            invariant
                i <= self.plan.steps.len(),
                forall|j: int| 0 <= j < i ==> self.chain()[j] != op,
            decreases self.plan.steps.len() - i,
        {
            assert(self.chain()[i as int] == self.plan.steps@[i as int].0);
            if self.plan.steps[i].0 == op {
                return true;
            }
            i = i + 1;
        }
        false
    }

    /// Writes the node for a state.
    fn node_text(&self, state_ref: crate::refs::StateRef) -> (r: String)
        requires
            self.driver.fits(self.plan),
            self.driver.knows_state(state_ref),
        ensures
            r@ == self.node_line(state_ref.0 as int),
    {
        let state = self.driver.state(state_ref);
        let label = match self.file_in(state_ref) {
            Some(filename) => String::from_str("label=\"").concat(state.name.as_str()).concat(
                "\n",
            ).concat(filename).concat("\" penwidth=3 fillcolor=gray style=filled"),
            None => String::from_str("label=\"").concat(state.name.as_str()).concat("\""),
        };
        let r = String::from_str("  ").concat(state_ref.label().as_str()).concat(" [").concat(
            label.as_str(),
        ).concat("];\n");
        assert(crate::refs::StateRef(state_ref.0 as int as u32) == state_ref);
        r
    }

    /// Writes the edge for an operation.
    fn edge_text_of(&self, op_ref: OpRef) -> (r: String)
        requires
            self.driver.knows_op(op_ref),
        ensures
            r@ == self.edge_line(op_ref.0 as int),
    {
        let op = self.driver.op(op_ref);
        let weight = if self.uses_op(op_ref) {
            String::from_str(" penwidth=3")
        } else {
            String::new()
        };
        let r = String::from_str("  ").concat(op.input.label().as_str()).concat(" -> ").concat(
            op.output.label().as_str(),
        ).concat(" [label=\"").concat(op.name.as_str()).concat("\"").concat(
            weight.as_str(),
        ).concat("];\n");
        assert(OpRef(op_ref.0 as int as u32) == op_ref);
        r
    }

    /// Show a GraphViz representation of the plan.
    pub fn show_dot(&self) -> (r: String)
        requires
            self.driver.fits(self.plan),
        ensures
            r@ == self.graph(),
    {
        proof {
            use_type_invariant(self.driver);
        }
        let mut out = String::from_str("digraph plan {\n").concat("  node[shape=box];\n");
        let ghost lead = out@;
        let stdin_op = self.driver.stdin_op();
        let stdout_op = self.driver.stdout_op();
        let null_in = self.driver.op(stdin_op).input;
        let null_out = self.driver.op(stdout_op).input;

        // Show all states.
        let n_states: usize = self.driver.state_count();
        let mut i: usize = 0;
        assert(out@ =~= lead + self.node_lines(0));
        while i < n_states
            invariant
                i <= n_states,
                n_states == self.driver.all_states().len(),
                n_states <= u32::MAX,
                self.driver.fits(self.plan),
                null_in == self.driver.operations()[self.driver.stdin_ref().0 as int].input,
                null_out == self.driver.operations()[self.driver.stdout_ref().0 as int].input,
                out@ == lead + self.node_lines(i as int),
            decreases n_states - i,
        {
            let state_ref = crate::refs::StateRef(i as u32);
            // Hide our "special" states for stdin/stdout.
            if !(state_ref == null_in || state_ref == null_out) {
                let line = self.node_text(state_ref);
                let ghost before = self.node_lines(i as int);
                out.append(line.as_str());
                assert(out@ =~= lead + (before + line@));
            }
            i = i + 1;
        }

        // Show all operations.
        let ghost nodes = out@;
        let n_ops: usize = self.driver.op_count();
        let mut k: usize = 0;
        assert(out@ =~= nodes + self.edge_lines(0));
        while k < n_ops
            invariant
                k <= n_ops,
                n_ops == self.driver.operations().len(),
                n_ops <= u32::MAX,
                stdin_op == self.driver.stdin_ref(),
                stdout_op == self.driver.stdout_ref(),
                out@ == nodes + self.edge_lines(k as int),
            decreases n_ops - k,
        {
            let op_ref = OpRef(k as u32);
            // Don't bother showing our "special" operations.
            if !(op_ref == stdin_op || op_ref == stdout_op) {
                let line = self.edge_text_of(op_ref);
                let ghost before = self.edge_lines(k as int);
                out.append(line.as_str());
                assert(out@ =~= nodes + (before + line@));
            }
            k = k + 1;
        }
        out.append("}\n");
        out
    }

    /// Whether the build executor is to run quietly: where the plan ends with
    /// the show on standard output.
    pub fn quiet(&self) -> (r: bool)
        ensures
            r == (self.plan@.steps.len() > 0 && self.plan@.steps.last().0
                == self.driver.stdout_ref()),
    {
        let n: usize = self.plan.steps.len();
        if n > 0 {
            assert(self.plan@.steps.last().0 == self.plan.steps@[n - 1].0);
            self.plan.steps[n - 1].0 == self.driver.stdout_op()
        } else {
            false
        }
    }

    /// Whether the working directory is to be removed after the build
    /// executor has run: where it succeeded, unless the directory was there
    /// before the run or the configuration keeps it.
    pub fn removes_dir(&self, existed: bool, succeeded: bool) -> (r: bool)
        ensures
            r == (succeeded && !self.global_config.keep_build_dir && !existed),
    {
        succeeded && !self.global_config.keep_build_dir && !existed
    }
}

/// The setup that captures standard input and the setup that shows a file
/// on standard output write different texts.
pub proof fn lemma_capture_is_not_show()
    ensures
        CaptureSetup.text() != ShowSetup.text(),
{
    reveal_strlit("rule ");
    reveal_strlit("capture");
    reveal_strlit("show");
    let capture = CaptureSetup.text().unwrap();
    let show = ShowSetup.text().unwrap();
    assert(capture[5] == 'c');
    assert(show[5] == 's');
}

impl<'a> Run<'a> {
    /// A plan between the streams within one state has a script with the
    /// rule that captures standard input and the rule that shows a file on
    /// standard output, each once, and the two build commands that use them.
    pub proof fn lemma_stream_script(&self, name: Seq<char>)
        requires
            self.driver.wf(),
            self.plan@.steps == seq![
                (self.driver.stdin_ref(), name),
                (self.driver.stdout_ref(), crate::plan::stdout_name()),
            ],
        ensures
            self.all_known(),
            self.known_script() == stanza("stdin"@, CaptureSetup.text().unwrap()) + stanza(
                "stdout"@,
                ShowSetup.text().unwrap(),
            ) + comment_line("build targets"@) + (CaptureBuild.text(self.plan@.start, name).unwrap()
                + ShowBuild.text(name, crate::plan::stdout_name()).unwrap()) + "\n"@ + default_line(
                crate::plan::stdout_name(),
            ),
    {
        let ops = self.driver.operations();
        let setups = self.driver.all_setups();
        let stdin = self.driver.stdin_ref();
        let stdout = self.driver.stdout_ref();
        let capture = ops[stdin.0 as int].setups@[0];
        let show = ops[stdout.0 as int].setups@[0];
        let chain = self.chain();
        assert(chain =~= seq![stdin, stdout]);
        let none = Seq::<SetupRef>::empty();
        assert(chain.take(0) =~= Seq::<OpRef>::empty());
        assert(chain.take(2) =~= chain);
        assert(wanted_setups(ops, chain.take(0)) =~= none);
        lemma_wanted_take(ops, chain, 0);
        lemma_wanted_take(ops, chain, 1);
        assert(ops[stdin.0 as int].setups@ =~= seq![capture]);
        assert(ops[stdout.0 as int].setups@ =~= seq![show]);
        let wanted = wanted_setups(ops, chain);
        assert(wanted =~= none.push(capture).push(show));
        lemma_capture_is_not_show();
        assert(capture != show);
        assert(first_occurrences(none) =~= none);
        assert(none.push(capture).drop_last() =~= none);
        assert(first_occurrences(none.push(capture)) =~= none.push(capture));
        assert(wanted.drop_last() =~= none.push(capture));
        let order = self.stanza_order();
        assert(order =~= none.push(capture).push(show));
        assert(self.body_text(0) == CaptureSetup.text());
        assert(self.body_text(1) == ShowSetup.text());
        assert(self.edge_text(0) == CaptureBuild.text(self.plan@.start, name));
        assert(self.edge_text(1) == ShowBuild.text(name, crate::plan::stdout_name()));
        let no_text = Seq::<Seq<char>>::empty();
        let body0 = CaptureSetup.text().unwrap();
        let body1 = ShowSetup.text().unwrap();
        let edge0 = CaptureBuild.text(self.plan@.start, name).unwrap();
        let edge1 = ShowBuild.text(name, crate::plan::stdout_name()).unwrap();
        let names = names_of(setups, order);
        assert(names =~= no_text.push("stdin"@).push("stdout"@));
        let bodies = Seq::new(order.len(), |i: int| self.body_text(i).unwrap());
        assert(bodies =~= no_text.push(body0).push(body1));
        let edges = Seq::new(self.plan@.steps.len(), |j: int| self.edge_text(j).unwrap());
        assert(edges =~= no_text.push(edge0).push(edge1));
        assert(stanzas(no_text, no_text) =~= Seq::<char>::empty());
        lemma_stanzas_push(no_text, no_text, "stdin"@, body0);
        lemma_stanzas_push(no_text.push("stdin"@), no_text.push(body0), "stdout"@, body1);
        assert(Seq::<char>::empty() + stanza("stdin"@, body0) =~= stanza("stdin"@, body0));
        assert(joined(no_text) =~= Seq::<char>::empty());
        lemma_joined_push(no_text, edge0);
        lemma_joined_push(no_text.push(edge0), edge1);
        assert(Seq::<char>::empty() + edge0 =~= edge0);
    }
}

} // verus!
