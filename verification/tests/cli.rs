use fake::cli::{from_state, get_request, to_state, workdir, Args, Mode, RequestError};
use fake::driver::StateRef;
use fake::{Driver, DriverBuilder};

fn catalog() -> Driver {
    let mut bld = DriverBuilder::new("fud2");
    let calyx = bld.state("calyx", &["futil"]);
    let verilog = bld.state("verilog", &["sv", "v"]);
    bld.rule(&[], calyx, verilog, "calyx-to-verilog");
    bld.build()
}

fn args(input: Option<&str>, output: Option<&str>, from: Option<&str>, to: Option<&str>) -> Args {
    Args {
        input: input.map(|s| s.to_string()),
        output: output.map(|s| s.to_string()),
        from: from.map(|s| s.to_string()),
        to: to.map(|s| s.to_string()),
        mode: Mode::EmitNinja,
        dir: None,
        keep: None,
    }
}

#[test]
fn modes_are_read_from_their_words() {
    assert_eq!(Mode::from_str("emit"), Ok(Mode::EmitNinja));
    assert_eq!(Mode::from_str("plan"), Ok(Mode::ShowPlan));
    assert_eq!(Mode::from_str("dot"), Ok(Mode::ShowDot));
    assert_eq!(Mode::from_str("gen"), Ok(Mode::Generate));
    assert_eq!(Mode::from_str("run"), Ok(Mode::Run));
    assert_eq!(Mode::from_str("Run"), Err("unknown mode".to_string()));
    assert_eq!(Mode::from_str(""), Err("unknown mode".to_string()));
}

#[test]
fn modes_are_written_as_their_words() {
    for mode in [Mode::EmitNinja, Mode::ShowPlan, Mode::ShowDot, Mode::Generate, Mode::Run] {
        assert_eq!(Mode::from_str(mode.name()), Ok(mode));
    }
    assert_eq!(Mode::EmitNinja.name(), "emit");
    assert_eq!(Mode::ShowDot.name(), "dot");
}

#[test]
fn start_state_is_named_or_guessed() {
    let driver = catalog();
    let named = args(Some("x.sv"), None, Some("calyx"), None);
    assert_eq!(from_state(&driver, &named), Ok(StateRef::from_u32(0)));
    let guessed = args(Some("x.sv"), None, None, None);
    assert_eq!(from_state(&driver, &guessed), Ok(StateRef::from_u32(1)));
    let unknown = args(Some("x.sv"), None, Some("firrtl"), None);
    assert_eq!(from_state(&driver, &unknown), Err(RequestError::UnknownFrom));
    let odd = args(Some("x.txt"), None, None, None);
    assert_eq!(from_state(&driver, &odd), Err(RequestError::UnknownInput));
    let nothing = args(None, None, None, None);
    assert_eq!(from_state(&driver, &nothing), Err(RequestError::NoInput));
}

#[test]
fn end_state_is_named_or_guessed() {
    let driver = catalog();
    let named = args(None, Some("x.futil"), None, Some("verilog"));
    assert_eq!(to_state(&driver, &named), Ok(StateRef::from_u32(1)));
    let guessed = args(None, Some("x.futil"), None, None);
    assert_eq!(to_state(&driver, &guessed), Ok(StateRef::from_u32(0)));
    let unknown = args(None, Some("x.futil"), None, Some("vcd"));
    assert_eq!(to_state(&driver, &unknown), Err(RequestError::UnknownTo));
    let odd = args(None, Some("x"), None, None);
    assert_eq!(to_state(&driver, &odd), Err(RequestError::UnknownOutput));
    let nothing = args(Some("x.futil"), None, None, None);
    assert_eq!(to_state(&driver, &nothing), Err(RequestError::NoOutput));
}

#[test]
fn errors_are_said_in_words() {
    assert_eq!(RequestError::UnknownFrom.message(), "unknown --from state");
    assert_eq!(RequestError::UnknownInput.message(), "could not infer input state");
    assert_eq!(RequestError::NoInput.message(), "specify an input file or use --from");
    assert_eq!(RequestError::UnknownTo.message(), "unknown --to state");
    assert_eq!(RequestError::UnknownOutput.message(), "could not infer output state");
    assert_eq!(RequestError::NoOutput.message(), "specify an output file or use --to");
}

#[test]
fn working_directory_depends_on_the_mode() {
    let driver = catalog();
    let mut a = args(Some("x.futil"), None, None, Some("verilog"));
    for mode in [Mode::EmitNinja, Mode::ShowPlan, Mode::ShowDot] {
        a.mode = mode;
        assert_eq!(workdir(&driver, &a), ".");
    }
    for mode in [Mode::Generate, Mode::Run] {
        a.mode = mode;
        assert_eq!(workdir(&driver, &a), ".fud2");
    }
    a.dir = Some("scratch".to_string());
    assert_eq!(workdir(&driver, &a), "scratch");
}

#[test]
fn request_is_made_from_the_arguments() {
    let driver = catalog();
    let mut a = args(Some("x.futil"), Some("out/x.sv"), None, None);
    a.mode = Mode::Run;
    let req = get_request(&driver, &a).unwrap();
    assert_eq!(req.start_state, StateRef::from_u32(0));
    assert_eq!(req.end_state, StateRef::from_u32(1));
    assert_eq!(req.start_file, Some("x.futil".to_string()));
    assert_eq!(req.end_file, Some("out/x.sv".to_string()));
    assert!(req.through.is_empty());
    assert_eq!(req.workdir, ".fud2");
    assert!(driver.has_request(&req));
    let plan = driver.plan(req).unwrap();
    assert_eq!(plan.start, "../x.futil");
    assert_eq!(plan.end(), "../out/x.sv");
}

#[test]
fn request_reports_the_first_error() {
    let driver = catalog();
    let both = args(None, None, None, None);
    assert_eq!(get_request(&driver, &both).err(), Some(RequestError::NoInput));
    let end = args(None, None, Some("calyx"), Some("nowhere"));
    assert_eq!(get_request(&driver, &end).err(), Some(RequestError::UnknownTo));
    let streams = args(None, None, Some("calyx"), Some("verilog"));
    let req = get_request(&driver, &streams).unwrap();
    assert_eq!((req.start_file, req.end_file), (None, None));
}
