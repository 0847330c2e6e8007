//! Requests and plans: which chain of operations a request gets, and which
//! file each step writes.

use crate::driver::Driver;
use crate::paths::{file_stem, path_file_stem, relative_path, relative_path_spec};
use crate::refs::{OpRef, StateRef};
use crate::route::{links, route, waypoints_known};
use vstd::prelude::*;

verus! {

/// A request to the Driver directing it what to build.
#[derive(Debug)]
pub struct Request {
    /// The input format.
    pub start_state: StateRef,
    /// The output format to produce.
    pub end_state: StateRef,
    /// The filename to read the input from, or None to read from stdin.
    pub start_file: Option<String>,
    /// The filename to write the output to, or None to print to stdout.
    pub end_file: Option<String>,
    /// A sequence of operators to route the conversion through.
    pub through: Vec<OpRef>,
    /// The working directory for the build.
    pub workdir: String,
}

/// The chain of operations for a request, with the file of each step.
#[derive(Debug)]
pub struct Plan {
    /// The input to the first step.
    pub start: String,
    /// The chain of operations to run and each step's output file.
    pub steps: Vec<(OpRef, String)>,
    /// The directory that the build will happen in.
    pub workdir: String,
}

/// Why a request has no plan.
#[derive(Copy, Clone, PartialEq, Eq, Structural, Debug)]
pub enum PlanError {
    /// No chain of operations leads from the start state to the end state
    /// through the waypoints.
    NoPath,
    /// A file of the request cannot be named from the working directory
    /// without asking the file system.
    NoRelativePath,
    /// The start file has no stem to name the intermediate files after.
    NoStem,
    /// A state that a file has to be generated in has no extension.
    NoExtension,
}

impl PlanError {
    /// The error in words.
    pub open spec fn text(self) -> Seq<char> {
        match self {
            PlanError::NoPath => "could not find path"@,
            PlanError::NoRelativePath => "could not name a file from the working directory"@,
            PlanError::NoStem => "input filename missing"@,
            PlanError::NoExtension => "a state on the path has no filename extension"@,
        }
    }

    /// The error in words.
    pub fn message(&self) -> (r: &'static str)
        ensures
            r@ == self.text(),
    {
        match self {
            PlanError::NoPath => "could not find path",
            PlanError::NoRelativePath => "could not name a file from the working directory",
            PlanError::NoStem => "input filename missing",
            PlanError::NoExtension => "a state on the path has no filename extension",
        }
    }
}

/// A plan as text: the start file, the steps and the working directory.
pub struct PlanText {
    pub start: Seq<char>,
    pub steps: Seq<(OpRef, Seq<char>)>,
    pub workdir: Seq<char>,
}

/// The name of the file that stands for standard output.
pub open spec fn stdout_name() -> Seq<char> {
    "_stdout"@
}

/// The stem of the files that follow standard input.
pub open spec fn stdin_stem() -> Seq<char> {
    "stdin"@
}

impl View for Plan {
    type V = PlanText;

    open spec fn view(&self) -> PlanText {
        PlanText {
            start: self.start@,
            steps: self.steps@.map_values(|step: (OpRef, String)| (step.0, step.1@)),
            workdir: self.workdir@,
        }
    }
}

impl PlanText {
    /// The file that the plan ends with: the output of its last step, or the
    /// start file where it has no step.
    pub open spec fn end(self) -> Seq<char> {
        if self.steps.len() > 0 {
            self.steps.last().1
        } else {
            self.start
        }
    }

    /// The operations of the steps, in order.
    pub open spec fn chain(self) -> Seq<OpRef> {
        self.steps.map_values(|step: (OpRef, Seq<char>)| step.0)
    }
}

impl Plan {
    /// The file that the plan ends with.
    pub fn end(&self) -> (r: &str)
        ensures
            r@ == self@.end(),
    {
        let n: usize = self.steps.len();
        if n > 0 {
            self.steps[n - 1].1.as_str()
        } else {
            self.start.as_str()
        }
    }
}

impl Driver {
    /// The steps for the chain `path`, each with the file generated for it
    /// from `stem`. None where a state on the way has no extension.
    pub open spec fn named_steps(&self, path: Seq<OpRef>, stem: Seq<char>) -> Option<
        Seq<(OpRef, Seq<char>)>,
    >
        decreases path.len(),
    {
        if path.len() == 0 {
            Some(Seq::empty())
        } else {
            let op = path.last();
            match (
                self.named_steps(path.drop_last(), stem),
                self.generated_name(stem, self.operations()[op.0 as int].output),
            ) {
                (Some(steps), Some(name)) => Some(steps.push((op, name))),
                _ => None,
            }
        }
    }

    /// The file that a plan starts from: the start file of the request as
    /// seen from the working directory, or `stdin` where it has none.
    pub open spec fn start_of(req: Request) -> Option<Seq<char>> {
        match req.start_file {
            Some(file) => relative_path_spec(file@, req.workdir@),
            None => Some(stdin_stem()),
        }
    }

    /// The stem that names the generated files: that of the start file, or
    /// `stdin` where the request has none.
    pub open spec fn stem_of(req: Request, start: Seq<char>) -> Option<Seq<char>> {
        match req.start_file {
            Some(_) => path_file_stem(start),
            None => Some(stdin_stem()),
        }
    }

    /// The steps before the chain: none where the request has a start file,
    /// else the capture of standard input in a file of the start state.
    pub open spec fn lead_of(&self, req: Request) -> Option<Seq<(OpRef, Seq<char>)>> {
        match req.start_file {
            Some(_) => Some(Seq::empty()),
            None => match self.generated_name(stdin_stem(), req.start_state) {
                Some(name) => Some(seq![(self.stdin_ref(), name)]),
                None => None,
            },
        }
    }

    /// The plan of a request, or why it has none.
    ///
    /// The chain is the one that `route` names. Each of its steps writes the
    /// file generated from the stem for the state that the step gives. A
    /// request without a start file gets the capture of standard input as its
    /// first step; one without an end file gets the show on standard output as
    /// its last step; an end file replaces the file of the last step of the
    /// chain, where the chain has a step.
    pub open spec fn plan_spec(&self, req: Request) -> Result<PlanText, PlanError> {
        match route(self.operations(), req.start_state, req.through@, req.end_state) {
            None => Err(PlanError::NoPath),
            Some(path) => match Self::start_of(req) {
                None => Err(PlanError::NoRelativePath),
                Some(start) => match Self::stem_of(req, start) {
                    None => Err(PlanError::NoStem),
                    Some(stem) => match (self.lead_of(req), self.named_steps(path, stem)) {
                        (Some(lead), Some(named)) => match self.finished_steps(req, lead, named) {
                            Some(steps) => Ok(PlanText { start, steps, workdir: req.workdir@ }),
                            None => Err(PlanError::NoRelativePath),
                        },
                        _ => Err(PlanError::NoExtension),
                    },
                },
            },
        }
    }

    /// The request names states and operations of this catalog only.
    pub open spec fn knows_request(&self, req: Request) -> bool {
        &&& self.knows_state(req.start_state)
        &&& self.knows_state(req.end_state)
        &&& waypoints_known(self.operations(), req.through@)
    }

    /// Whether the request names states and operations of this catalog only.
    pub fn has_request(&self, req: &Request) -> (r: bool)
        ensures
            r == self.knows_request(*req),
    {
        if !self.has_state(req.start_state) || !self.has_state(req.end_state) {
            return false;
        }
        let mut i: usize = 0;
        while i < req.through.len()
            invariant
                i <= req.through.len(),
                forall|j: int| 0 <= j < i ==> self.knows_op(#[trigger] req.through@[j]),
            decreases req.through.len() - i,
        {
            if !self.has_op(req.through[i]) {
                return false;
            }
            i = i + 1;
        }
        true
    }

    /// Generates the steps for a chain, each with its file.
    fn name_steps(&self, path: &Vec<OpRef>, stem: &str, steps: &mut Vec<(OpRef, String)>) -> (r:
        bool)
        requires
            forall|i: int| 0 <= i < path@.len() ==> self.knows_op(#[trigger] path@[i]),
        ensures
            match self.named_steps(path@, stem@) {
                Some(named) => r && steps_text(final(steps)@) == steps_text(old(steps)@) + named,
                None => !r,
            },
    {
        let ghost lead = steps_text(steps@);
        let mut i: usize = 0;
        assert(path@.take(0) =~= Seq::<OpRef>::empty());
        assert(steps_text(steps@) =~= lead + Seq::<(OpRef, Seq<char>)>::empty());
        while i < path.len()
            invariant
                i <= path.len(),
                forall|j: int| 0 <= j < path@.len() ==> self.knows_op(#[trigger] path@[j]),
                self.named_steps(path@.take(i as int), stem@) matches Some(named) && steps_text(
                    steps@,
                ) == lead + named,
            decreases path.len() - i,
        {
            let op = path[i];
            proof {
                assert(path@.take(i + 1).drop_last() =~= path@.take(i as int));
                assert(path@.take(i + 1).last() == op);
            }
            let ghost sofar = self.named_steps(path@.take(i as int), stem@).unwrap();
            match self.gen_name(stem, self.op(op).output) {
                Some(name) => {
                    let ghost before = steps@;
                    steps.push((op, name));
                    proof {
                        assert(steps_text(steps@) =~= steps_text(before).push((op, name@)));
                        assert(lead + sofar.push((op, name@)) =~= (lead + sofar).push((op, name@)));
                    }
                },
                None => {
                    proof {
                        self.lemma_named_steps_stay_none(path@, stem@, i + 1);
                    }
                    return false;
                },
            }
            i = i + 1;
        }
        assert(path@.take(i as int) =~= path@);
        true
    }

    /// Once the steps for a part of the chain have no names, the steps for the
    /// whole chain have none.
    pub proof fn lemma_named_steps_stay_none(&self, path: Seq<OpRef>, stem: Seq<char>, count: int)
        requires
            0 <= count <= path.len(),
            self.named_steps(path.take(count), stem) is None,
        ensures
            self.named_steps(path, stem) is None,
        decreases path.len() - count,
    {
        if count == path.len() {
            assert(path.take(count) =~= path);
        } else {
            assert(path.take(count + 1).drop_last() =~= path.take(count));
            self.lemma_named_steps_stay_none(path, stem, count + 1);
        }
    }

    /// The start file and the stem of a request, with the capture of
    /// standard input as the first step where the request has no start file.
    fn start_steps(&self, req: &Request, steps: &mut Vec<(OpRef, String)>) -> (r: Result<
        (String, String),
        PlanError,
    >)
        requires
            self.knows_state(req.start_state),
            old(steps)@.len() == 0,
        ensures
            match r {
                Ok((start, stem)) => {
                    &&& Self::start_of(*req) == Some(start@)
                    &&& Self::stem_of(*req, start@) == Some(stem@)
                    &&& self.lead_of(*req) == Some(steps_text(final(steps)@))
                    &&& forall|i: int|
                        0 <= i < final(steps)@.len() ==> self.knows_op((#[trigger] final(steps)@[i]).0)
                },
                Err(PlanError::NoRelativePath) => Self::start_of(*req) is None,
                Err(PlanError::NoStem) => Self::start_of(*req) matches Some(start) && Self::stem_of(
                    *req,
                    start,
                ) is None,
                Err(PlanError::NoExtension) => Self::start_of(*req) matches Some(start)
                    && Self::stem_of(*req, start) is Some && self.lead_of(*req) is None,
                Err(PlanError::NoPath) => false,
            },
    {
        // Get the initial input filename and the stem to use to generate all intermediate filenames.
        match &req.start_file {
            Some(file) => {
                let start_file = match relative_path(file.as_str(), req.workdir.as_str()) {
                    Some(p) => p,
                    None => {
                        return Err(PlanError::NoRelativePath);
                    },
                };
                let stem = match file_stem(start_file.as_str()) {
                    Some(s) => s,
                    None => {
                        return Err(PlanError::NoStem);
                    },
                };
                assert(steps_text(steps@) =~= Seq::<(OpRef, Seq<char>)>::empty());
                Ok((start_file, stem))
            },
            None => {
                let stem = String::from_str("stdin");
                match self.gen_name(stem.as_str(), req.start_state) {
                    Some(name) => {
                        steps.push((self.stdin_op(), name));
                        assert(steps_text(steps@) =~= seq![(self.stdin_ref(), name@)]);
                    },
                    None => {
                        return Err(PlanError::NoExtension);
                    },
                }
                Ok((String::from_str("stdin"), stem))
            },
        }
    }

    /// The steps of a plan, given the steps before the chain and those of
    /// the chain: with the end file in place of the file of the last step of
    /// the chain, or with the show on standard output behind them.
    pub open spec fn finished_steps(
        &self,
        req: Request,
        lead: Seq<(OpRef, Seq<char>)>,
        named: Seq<(OpRef, Seq<char>)>,
    ) -> Option<Seq<(OpRef, Seq<char>)>> {
        match req.end_file {
            None => Some((lead + named).push((self.stdout_ref(), stdout_name()))),
            Some(file) => if named.len() == 0 {
                Some(lead)
            } else {
                match relative_path_spec(file@, req.workdir@) {
                    None => None,
                    Some(end) => Some(lead + named.drop_last().push((named.last().0, end))),
                }
            },
        }
    }

    /// Puts the end of the request to the steps.
    fn end_steps(
        &self,
        req: &Request,
        steps: &mut Vec<(OpRef, String)>,
        Ghost(lead): Ghost<Seq<(OpRef, Seq<char>)>>,
        Ghost(named): Ghost<Seq<(OpRef, Seq<char>)>>,
        named_len: usize,
    ) -> (r: bool)
        requires
            steps_text(old(steps)@) == lead + named,
            named_len == named.len(),
            forall|i: int| 0 <= i < old(steps)@.len() ==> self.knows_op((#[trigger] old(steps)@[i]).0),
        ensures
            match self.finished_steps(*req, lead, named) {
                Some(all) => r && steps_text(final(steps)@) == all,
                None => !r,
            },
            forall|i: int|
                0 <= i < final(steps)@.len() ==> self.knows_op((#[trigger] final(steps)@[i]).0),
    {
        let ghost before = steps@;
        assert(steps_text(before).len() == before.len());
        match &req.end_file {
            Some(end_file) => {
                // If we have a specified output filename, use that instead of the generated one.
                if named_len > 0 {
                    let end = match relative_path(end_file.as_str(), req.workdir.as_str()) {
                        Some(p) => p,
                        None => {
                            return false;
                        },
                    };
                    assert(before.len() == lead.len() + named.len());
                    let last: usize = steps.len() - 1;
                    let op = steps[last].0;
                    steps.set(last, (op, end));
                    proof {
                        assert(steps_text(steps@).len() == steps@.len());
                        let target = lead + named.drop_last().push((named.last().0, end@));
                        let n_lead = lead.len() as int;
                        assert(steps_text(before)[last as int] == (lead + named)[last as int]);
                        assert((lead + named)[last as int] == named[last - n_lead]);
                        assert(op == named.last().0);
                        assert(target.len() == steps@.len());
                        assert forall|i: int| 0 <= i < steps@.len() implies steps_text(steps@)[i]
                            == target[i] by {
                            if i < last {
                                assert(steps@[i] == before[i]);
                                assert(steps_text(before)[i] == (lead + named)[i]);
                                if i >= n_lead {
                                    assert((lead + named)[i] == named[i - n_lead]);
                                    assert(named.drop_last()[i - n_lead] == named[i - n_lead]);
                                    assert(target[i] == named.drop_last().push(
                                        (named.last().0, end@),
                                    )[i - n_lead]);
                                } else {
                                    assert(target[i] == lead[i]);
                                }
                            } else {
                                assert(target[i] == named.drop_last().push(
                                    (named.last().0, end@),
                                )[i - n_lead]);
                            }
                        }
                        assert(steps_text(steps@) =~= target);
                    }
                } else {
                    proof {
                        assert(steps_text(steps@) =~= lead);
                    }
                }
            },
            None => {
                steps.push((self.stdout_op(), String::from_str("_stdout")));
                proof {
                    assert(steps_text(steps@) =~= (lead + named).push(
                        (self.stdout_ref(), stdout_name()),
                    ));
                }
            },
        }
        true
    }

    /// Makes the plan for a request.
    pub fn plan(&self, req: Request) -> (r: Result<Plan, PlanError>)
        requires
            self.knows_request(req),
        ensures
            match r {
                Ok(plan) => self.plan_spec(req) == Ok::<PlanText, PlanError>(plan@),
                Err(e) => self.plan_spec(req) == Err::<PlanText, PlanError>(e),
            },
            r matches Ok(plan) ==> self.fits(plan),
    {
        proof {
            use_type_invariant(self);
        }
        let ghost ops = self.operations();
        // Find a path through the states.
        let path = match self.find_path(req.start_state, req.end_state, req.through.as_slice()) {
            Some(path) => path,
            None => {
                return Err(PlanError::NoPath);
            },
        };
        proof {
            crate::route::lemma_route_links(ops, req.start_state, req.through@, req.end_state);
        }

        let mut steps: Vec<(OpRef, String)> = Vec::new();
        let (start_file, stem) = match self.start_steps(&req, &mut steps) {
            Ok(found) => found,
            Err(e) => {
                return Err(e);
            },
        };
        let ghost lead = steps_text(steps@);
        let ghost lead_steps = steps@;

        // Generate filenames for each step.
        if !self.name_steps(&path, stem.as_str(), &mut steps) {
            return Err(PlanError::NoExtension);
        }
        let ghost named = self.named_steps(path@, stem@).unwrap();
        proof {
            self.lemma_named_steps_chain(path@, stem@);
            assert forall|i: int| 0 <= i < steps@.len() implies self.knows_op(
                (#[trigger] steps@[i]).0,
            ) by {
                assert(steps_text(steps@).len() == steps@.len());
                assert(steps_text(lead_steps).len() == lead_steps.len());
                assert(steps_text(steps@)[i].0 == steps@[i].0);
                let n_lead = lead.len() as int;
                if i < n_lead {
                    assert(steps_text(lead_steps)[i].0 == lead_steps[i].0);
                    assert((lead + named)[i] == lead[i]);
                } else {
                    let k = i - n_lead;
                    assert(0 <= k < path@.len());
                    assert((lead + named)[i] == named[k]);
                    assert(self.named_steps(path@, stem@).unwrap()[k].0 == path@[k]);
                    assert(self.knows_op(path@[k]));
                }
            }
        }
        if !self.end_steps(&req, &mut steps, Ghost(lead), Ghost(named), path.len()) {
            return Err(PlanError::NoRelativePath);
        }
        let plan = Plan { start: start_file, steps, workdir: req.workdir };
        proof {
            assert(plan@.steps =~= steps_text(plan.steps@));
        }
        Ok(plan)
    }

    /// The named steps of a chain are as many as its operations, each with
    /// its operation.
    pub proof fn lemma_named_steps_chain(&self, path: Seq<OpRef>, stem: Seq<char>)
        requires
            self.named_steps(path, stem) is Some,
        ensures
            self.named_steps(path, stem).unwrap().len() == path.len(),
            forall|i: int|
                0 <= i < path.len() ==> (#[trigger] self.named_steps(path, stem).unwrap()[i]).0
                    == path[i],
            forall|i: int|
                0 <= i < path.len() ==> Some((#[trigger] self.named_steps(path, stem).unwrap()[i]).1)
                    == self.generated_name(stem, self.operations()[path[i].0 as int].output),
        decreases path.len(),
    {
        if path.len() > 0 {
            self.lemma_named_steps_chain(path.drop_last(), stem);
            let steps = self.named_steps(path, stem).unwrap();
            let shorter = self.named_steps(path.drop_last(), stem).unwrap();
            assert forall|i: int| 0 <= i < path.len() implies (#[trigger] steps[i]).0 == path[i]
                && Some(steps[i].1) == self.generated_name(
                stem,
                self.operations()[path[i].0 as int].output,
            ) by {
                if i < path.len() - 1 {
                    assert(steps[i] == shorter[i]);
                    assert(path.drop_last()[i] == path[i]);
                }
            }
        }
    }

    /// Every step of the plan names an operation of this catalog.
    pub open spec fn fits(&self, plan: Plan) -> bool {
        forall|i: int| 0 <= i < plan.steps@.len() ==> self.knows_op((#[trigger] plan.steps@[i]).0)
    }

    /// Whether every step of the plan names an operation of this catalog.
    pub fn has_plan(&self, plan: &Plan) -> (r: bool)
        ensures
            r == self.fits(*plan),
    {
        let mut i: usize = 0;
        while i < plan.steps.len()
            invariant
                i <= plan.steps.len(),
                forall|j: int| 0 <= j < i ==> self.knows_op((#[trigger] plan.steps@[j]).0),
            decreases plan.steps.len() - i,
        {
            if !self.has_op(plan.steps[i].0) {
                return false;
            }
            i = i + 1;
        }
        true
    }
}

impl Driver {
    /// The steps that stand before the chain in the plan of a request.
    pub open spec fn lead_chain(&self, req: Request) -> Seq<OpRef> {
        if req.start_file is None {
            seq![self.stdin_ref()]
        } else {
            Seq::empty()
        }
    }

    /// The steps that stand behind the chain in the plan of a request.
    pub open spec fn trail_chain(&self, req: Request) -> Seq<OpRef> {
        if req.end_file is None {
            seq![self.stdout_ref()]
        } else {
            Seq::empty()
        }
    }

    /// The steps of a plan are connected: between the capture of standard
    /// input and the show on standard output, where the plan has them, its
    /// operations are a chain from the start state of the request to its end
    /// state through the graph of the catalog, and that chain is the one that
    /// `route` names.
    pub proof fn lemma_plan_connected(&self, req: Request)
        requires
            self.knows_request(req),
            self.plan_spec(req) is Ok,
        ensures
            route(self.operations(), req.start_state, req.through@, req.end_state) matches Some(
                path,
            ) && links(self.operations(), req.start_state, path, req.end_state)
                && self.plan_spec(req).unwrap().chain() == self.lead_chain(req) + path
                + self.trail_chain(req),
    {
        let ops = self.operations();
        let path = route(ops, req.start_state, req.through@, req.end_state).unwrap();
        crate::route::lemma_route_links(ops, req.start_state, req.through@, req.end_state);
        let start = Self::start_of(req).unwrap();
        let stem = Self::stem_of(req, start).unwrap();
        let lead = self.lead_of(req).unwrap();
        let named = self.named_steps(path, stem).unwrap();
        self.lemma_named_steps_chain(path, stem);
        let plan = self.plan_spec(req).unwrap();
        let chain = plan.chain();
        let lead_ops = lead.map_values(|step: (OpRef, Seq<char>)| step.0);
        assert(lead_ops =~= self.lead_chain(req));
        let named_ops = named.map_values(|step: (OpRef, Seq<char>)| step.0);
        assert(named_ops =~= path);
        match req.end_file {
            None => {
                assert(chain =~= lead_ops + named_ops + seq![self.stdout_ref()]);
            },
            Some(file) => {
                if named.len() == 0 {
                    assert(chain =~= lead_ops + named_ops + Seq::<OpRef>::empty());
                } else {
                    assert(chain =~= lead_ops + named_ops + Seq::<OpRef>::empty());
                }
            },
        }
    }

    /// A request between files of one state, without waypoints, has a plan
    /// without steps, which ends with its start file. It has no plan only
    /// where the start file cannot be named from the working directory or has
    /// no stem.
    pub proof fn lemma_plan_without_steps(&self, req: Request)
        requires
            req.start_state == req.end_state,
            req.through@.len() == 0,
            req.start_file is Some,
            req.end_file is Some,
        ensures
            match self.plan_spec(req) {
                Ok(plan) => plan.steps.len() == 0 && Some(plan.start) == relative_path_spec(
                    req.start_file.unwrap()@,
                    req.workdir@,
                ) && plan.end() == plan.start,
                Err(e) => e == PlanError::NoRelativePath || e == PlanError::NoStem,
            },
    {
        let ops = self.operations();
        crate::route::lemma_best_path_same(ops, req.start_state);
        assert(req.through@ =~= Seq::<OpRef>::empty());
        assert(Seq::<OpRef>::empty() + Seq::<OpRef>::empty() =~= Seq::<OpRef>::empty());
        assert(route(ops, req.start_state, req.through@, req.end_state) == Some(
            Seq::<OpRef>::empty(),
        ));
    }

    /// A request from standard input to standard output within one state,
    /// without waypoints, has a plan of exactly two steps: the capture of
    /// standard input and the show on standard output. It has no plan only
    /// where the state has no extension to name the captured file with.
    pub proof fn lemma_plan_between_streams(&self, req: Request)
        requires
            req.start_state == req.end_state,
            req.through@.len() == 0,
            req.start_file is None,
            req.end_file is None,
        ensures
            match self.generated_name(stdin_stem(), req.start_state) {
                Some(name) => self.plan_spec(req) == Ok::<PlanText, PlanError>(
                    PlanText {
                        start: stdin_stem(),
                        steps: seq![(self.stdin_ref(), name), (self.stdout_ref(), stdout_name())],
                        workdir: req.workdir@,
                    },
                ),
                None => self.plan_spec(req) == Err::<PlanText, PlanError>(PlanError::NoExtension),
            },
    {
        let ops = self.operations();
        crate::route::lemma_best_path_same(ops, req.start_state);
        assert(req.through@ =~= Seq::<OpRef>::empty());
        assert(Seq::<OpRef>::empty() + Seq::<OpRef>::empty() =~= Seq::<OpRef>::empty());
        assert(route(ops, req.start_state, req.through@, req.end_state) == Some(
            Seq::<OpRef>::empty(),
        ));
        match self.generated_name(stdin_stem(), req.start_state) {
            Some(name) => {
                let lead = seq![(self.stdin_ref(), name)];
                assert((lead + Seq::<(OpRef, Seq<char>)>::empty()).push(
                    (self.stdout_ref(), stdout_name()),
                ) =~= seq![(self.stdin_ref(), name), (self.stdout_ref(), stdout_name())]);
            },
            None => {},
        }
    }

    /// An end file replaces the file of the last step of the chain and no
    /// other: the plan of a request with an end file has the steps of the plan
    /// of the same request without one, but for the show on standard output,
    /// which it lacks, and for the file of its last step, which is the end file
    /// as seen from the working directory.
    pub proof fn lemma_override_only_last(&self, req: Request, streamed: Request)
        requires
            req.end_file is Some,
            streamed.end_file is None,
            streamed.start_state == req.start_state,
            streamed.end_state == req.end_state,
            streamed.start_file == req.start_file,
            streamed.through == req.through,
            streamed.workdir == req.workdir,
            self.plan_spec(req) is Ok,
        ensures
            self.plan_spec(streamed) matches Ok(other) && ({
                let plan = self.plan_spec(req).unwrap();
                let chain = route(
                    self.operations(),
                    req.start_state,
                    req.through@,
                    req.end_state,
                ).unwrap();
                &&& other.start == plan.start
                &&& other.steps.len() == plan.steps.len() + 1
                &&& forall|i: int|
                    0 <= i < plan.steps.len() ==> (#[trigger] plan.steps[i]).0 == other.steps[i].0
                &&& forall|i: int|
                    0 <= i < plan.steps.len() - 1 ==> #[trigger] plan.steps[i] == other.steps[i]
                &&& chain.len() == 0 ==> forall|i: int|
                    0 <= i < plan.steps.len() ==> #[trigger] plan.steps[i] == other.steps[i]
                &&& chain.len() > 0 ==> Some(plan.steps.last().1) == relative_path_spec(
                    req.end_file.unwrap()@,
                    req.workdir@,
                )
            }),
    {
        let ops = self.operations();
        let path = route(ops, req.start_state, req.through@, req.end_state).unwrap();
        let start = Self::start_of(req).unwrap();
        let stem = Self::stem_of(req, start).unwrap();
        assert(Self::start_of(streamed) == Self::start_of(req));
        assert(Self::stem_of(streamed, start) == Self::stem_of(req, start));
        assert(self.lead_of(streamed) == self.lead_of(req));
        let lead = self.lead_of(req).unwrap();
        let named = self.named_steps(path, stem).unwrap();
        self.lemma_named_steps_chain(path, stem);
    }
}


/// The steps of a plan as text.
pub open spec fn steps_text(steps: Seq<(OpRef, String)>) -> Seq<(OpRef, Seq<char>)> {
    steps.map_values(|step: (OpRef, String)| (step.0, step.1@))
}

} // verus!
