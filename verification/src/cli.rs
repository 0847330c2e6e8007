//! From the arguments of an invocation to a request: the mode, the states
//! on both ends, and the working directory.

use crate::driver::{first_named, state_names, Driver};
use crate::plan::Request;
use crate::refs::StateRef;
use crate::text::same_text;
use vstd::prelude::*;

verus! {

/// What an invocation does with its plan.
#[derive(Copy, Clone, PartialEq, Eq, Structural, Debug)]
pub enum Mode {
    EmitNinja,
    ShowPlan,
    ShowDot,
    Generate,
    Run,
}

/// The arguments of an invocation.
pub struct Args {
    /// the input file
    pub input: Option<String>,
    /// the output file
    pub output: Option<String>,
    /// the state to start from
    pub from: Option<String>,
    /// the state to produce
    pub to: Option<String>,
    /// execution mode (plan, emit, gen, run)
    pub mode: Mode,
    /// working directory for the build
    pub dir: Option<String>,
    /// in run mode, keep the temporary directory
    pub keep: Option<bool>,
}

/// Why the arguments make no request.
#[derive(Copy, Clone, PartialEq, Eq, Structural, Debug)]
pub enum RequestError {
    /// The state named for the start is not in the catalog.
    UnknownFrom,
    /// No state has the extension of the input file.
    UnknownInput,
    /// Neither a start state nor an input file is given.
    NoInput,
    /// The state named for the end is not in the catalog.
    UnknownTo,
    /// No state has the extension of the output file.
    UnknownOutput,
    /// Neither an end state nor an output file is given.
    NoOutput,
}

impl Mode {
    /// The word for the mode on the command line.
    pub open spec fn word(self) -> Seq<char> {
        match self {
            Mode::EmitNinja => "emit"@,
            Mode::ShowPlan => "plan"@,
            Mode::ShowDot => "dot"@,
            Mode::Generate => "gen"@,
            Mode::Run => "run"@,
        }
    }

    /// The mode that a word stands for, if it stands for one.
    pub open spec fn of_word(word: Seq<char>) -> Option<Mode> {
        if word == "emit"@ {
            Some(Mode::EmitNinja)
        } else if word == "plan"@ {
            Some(Mode::ShowPlan)
        } else if word == "gen"@ {
            Some(Mode::Generate)
        } else if word == "run"@ {
            Some(Mode::Run)
        } else if word == "dot"@ {
            Some(Mode::ShowDot)
        } else {
            None
        }
    }

    /// Reads a mode from its word.
    pub fn from_str(s: &str) -> (r: Result<Mode, String>)
        ensures
            match r {
                Ok(mode) => Self::of_word(s@) == Some(mode),
                Err(e) => Self::of_word(s@) is None && e@ == "unknown mode"@,
            },
    {
        if same_text(s, "emit") {
            Ok(Mode::EmitNinja)
        } else if same_text(s, "plan") {
            Ok(Mode::ShowPlan)
        } else if same_text(s, "gen") {
            Ok(Mode::Generate)
        } else if same_text(s, "run") {
            Ok(Mode::Run)
        } else if same_text(s, "dot") {
            Ok(Mode::ShowDot)
        } else {
            Err(String::from_str("unknown mode"))
        }
    }

    /// The word for the mode.
    pub fn name(&self) -> (r: &'static str)
        ensures
            r@ == self.word(),
    {
        match self {
            Mode::EmitNinja => "emit",
            Mode::ShowPlan => "plan",
            Mode::Generate => "gen",
            Mode::Run => "run",
            Mode::ShowDot => "dot",
        }
    }

    /// The word of a mode reads as that mode.
    pub proof fn lemma_word_round_trip(self)
        ensures
            Self::of_word(self.word()) == Some(self),
    {
        reveal_strlit("emit");
        reveal_strlit("plan");
        reveal_strlit("dot");
        reveal_strlit("gen");
        reveal_strlit("run");
        let word = self.word();
        match self {
            Mode::EmitNinja => {},
            Mode::ShowPlan => {
                assert(word[0] == 'p');
            },
            Mode::ShowDot => {
                assert(word[0] == 'd');
            },
            Mode::Generate => {
                assert(word[0] == 'g');
            },
            Mode::Run => {
                assert(word[0] == 'r');
            },
        }
    }
}

impl RequestError {
    /// The error in words.
    pub open spec fn text(self) -> Seq<char> {
        match self {
            RequestError::UnknownFrom => "unknown --from state"@,
            RequestError::UnknownInput => "could not infer input state"@,
            RequestError::NoInput => "specify an input file or use --from"@,
            RequestError::UnknownTo => "unknown --to state"@,
            RequestError::UnknownOutput => "could not infer output state"@,
            RequestError::NoOutput => "specify an output file or use --to"@,
        }
    }

    /// The error in words.
    pub fn message(&self) -> (r: &'static str)
        ensures
            r@ == self.text(),
    {
        match self {
            RequestError::UnknownFrom => "unknown --from state",
            RequestError::UnknownInput => "could not infer input state",
            RequestError::NoInput => "specify an input file or use --from",
            RequestError::UnknownTo => "unknown --to state",
            RequestError::UnknownOutput => "could not infer output state",
            RequestError::NoOutput => "specify an output file or use --to",
        }
    }
}

/// The state at one end of a request: the one named, or else the one that
/// the extension of the file stands for.
pub open spec fn end_state(
    driver: &Driver,
    name: Option<String>,
    file: Option<String>,
    unknown_name: RequestError,
    unknown_file: RequestError,
    nothing: RequestError,
) -> Result<int, RequestError> {
    match name {
        Some(name) => match first_named(state_names(driver.all_states()), name@) {
            Some(state) => Ok(state),
            None => Err(unknown_name),
        },
        None => match file {
            Some(file) => match driver.guessed_state(file@) {
                Some(state) => Ok(state),
                None => Err(unknown_file),
            },
            None => Err(nothing),
        },
    }
}

/// The start state of the invocation.
pub open spec fn from_state_spec(driver: &Driver, args: &Args) -> Result<int, RequestError> {
    end_state(
        driver,
        args.from,
        args.input,
        RequestError::UnknownFrom,
        RequestError::UnknownInput,
        RequestError::NoInput,
    )
}

/// The end state of the invocation.
pub open spec fn to_state_spec(driver: &Driver, args: &Args) -> Result<int, RequestError> {
    end_state(
        driver,
        args.to,
        args.output,
        RequestError::UnknownTo,
        RequestError::UnknownOutput,
        RequestError::NoOutput,
    )
}

/// The number of a state, or the error.
pub open spec fn number_of(state: Result<StateRef, RequestError>) -> Result<int, RequestError> {
    match state {
        Ok(s) => Ok(s.0 as int),
        Err(e) => Err(e),
    }
}

/// The state to start from: the one that `--from` names, or the one that the
/// input file's extension stands for.
pub fn from_state(driver: &Driver, args: &Args) -> (r: Result<StateRef, RequestError>)
    ensures
        number_of(r) == from_state_spec(driver, args),
        r matches Ok(state) ==> driver.knows_state(state),
{
    match &args.from {
        Some(name) => match driver.get_state(name.as_str()) {
            Some(state) => Ok(state),
            None => Err(RequestError::UnknownFrom),
        },
        None => match &args.input {
            Some(input) => match driver.guess_state(input.as_str()) {
                Some(state) => Ok(state),
                None => Err(RequestError::UnknownInput),
            },
            None => Err(RequestError::NoInput),
        },
    }
}

/// The state to produce: the one that `--to` names, or the one that the
/// output file's extension stands for.
pub fn to_state(driver: &Driver, args: &Args) -> (r: Result<StateRef, RequestError>)
    ensures
        number_of(r) == to_state_spec(driver, args),
        r matches Ok(state) ==> driver.knows_state(state),
{
    match &args.to {
        Some(name) => match driver.get_state(name.as_str()) {
            Some(state) => Ok(state),
            None => Err(RequestError::UnknownTo),
        },
        None => match &args.output {
            Some(out) => match driver.guess_state(out.as_str()) {
                Some(state) => Ok(state),
                None => Err(RequestError::UnknownOutput),
            },
            None => Err(RequestError::NoOutput),
        },
    }
}

/// The working directory of the invocation: the one given, or else the
/// invocation directory for the modes that only print and the directory of
/// the catalog for the modes that build.
pub open spec fn workdir_spec(driver: &Driver, args: &Args) -> Seq<char> {
    match args.dir {
        Some(dir) => dir@,
        None => match args.mode {
            Mode::Generate | Mode::Run => "."@ + driver.name_text(),
            _ => "."@,
        },
    }
}

/// The working directory of the invocation.
pub fn workdir(driver: &Driver, args: &Args) -> (r: String)
    ensures
        r@ == workdir_spec(driver, args),
{
    // The default working directory (if not specified) depends on the mode.
    match &args.dir {
        Some(dir) => dir.clone(),
        None => match args.mode {
            Mode::Generate | Mode::Run => driver.default_workdir(),
            _ => String::from_str("."),
        },
    }
}

/// Whether `req` is the request of the invocation: its files, the states at
/// its ends, no waypoints, and its working directory.
pub open spec fn is_request_of(driver: &Driver, args: &Args, req: Request) -> bool {
    &&& crate::paths::text_of(req.start_file) == crate::paths::text_of(args.input)
    &&& crate::paths::text_of(req.end_file) == crate::paths::text_of(args.output)
    &&& from_state_spec(driver, args) == Ok::<int, RequestError>(req.start_state.0 as int)
    &&& to_state_spec(driver, args) == Ok::<int, RequestError>(req.end_state.0 as int)
    &&& req.through@.len() == 0
    &&& req.workdir@ == workdir_spec(driver, args)
}

/// The error of the invocation: that of the start state, or else that of the
/// end state.
pub open spec fn request_error(driver: &Driver, args: &Args) -> Option<RequestError> {
    match from_state_spec(driver, args) {
        Err(e) => Some(e),
        Ok(_) => match to_state_spec(driver, args) {
            Err(e) => Some(e),
            Ok(_) => None,
        },
    }
}

/// Copies an optional string.
pub fn copy_of(text: &Option<String>) -> (r: Option<String>)
    ensures
        crate::paths::text_of(r) == crate::paths::text_of(*text),
{
    match text {
        Some(t) => Some(t.clone()),
        None => None,
    }
}

/// Makes the request of an invocation.
pub fn get_request(driver: &Driver, args: &Args) -> (r: Result<Request, RequestError>)
    ensures
        match r {
            Ok(req) => is_request_of(driver, args, req) && driver.knows_request(req),
            Err(e) => request_error(driver, args) == Some(e),
        },
{
    let start_state = match from_state(driver, args) {
        Ok(state) => state,
        Err(e) => {
            return Err(e);
        },
    };
    let end_state = match to_state(driver, args) {
        Ok(state) => state,
        Err(e) => {
            return Err(e);
        },
    };
    Ok(
        Request {
            start_file: copy_of(&args.input),
            start_state,
            end_file: copy_of(&args.output),
            end_state,
            through: Vec::new(),
            workdir: workdir(driver, args),
        },
    )
}

} // verus!
