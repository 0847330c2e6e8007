use fake::config::GlobalConfig;
use fake::driver::{EmitBuild, EmitError, EmitResult, EmitSetup, OpRef, Request, StateRef};
use fake::run::{Emitter, Run};
use fake::{Driver, DriverBuilder};
use figment::Figment;

/// A setup that declares one variable.
struct Tool(&'static str, &'static str);

impl EmitSetup for Tool {
    fn setup(&self, emitter: &mut Emitter) -> EmitResult {
        emitter.var(self.0, self.1)
    }
}

/// A setup that needs a configuration value.
struct Configured(&'static str, &'static str);

impl EmitSetup for Configured {
    fn setup(&self, emitter: &mut Emitter) -> EmitResult {
        emitter.config_var(self.0, self.1)?;
        emitter.rule("use", "$tool $in > $out")
    }
}

/// A setup that puts a helper file into the working directory.
struct Helper;

impl EmitSetup for Helper {
    fn setup(&self, emitter: &mut Emitter) -> EmitResult {
        emitter.add_file("helper.tcl", b"exit\n")?;
        emitter.comment("helper written")
    }
}

/// A build with two edges and an argument.
struct TwoStage(&'static str);

impl EmitBuild for TwoStage {
    fn build(&self, emitter: &mut Emitter, input: &str, output: &str) -> EmitResult {
        emitter.build_cmd("mid.tmp", "first", &[input], &[])?;
        emitter.build_cmd(output, "second", &["mid.tmp"], &["helper.tcl"])?;
        emitter.arg("backend", self.0)
    }
}

/// A build that always fails.
struct Broken;

impl EmitBuild for Broken {
    fn build(&self, _emitter: &mut Emitter, _input: &str, _output: &str) -> EmitResult {
        Err(EmitError::MissingConfig("broken".to_string()))
    }
}

fn request(
    start: StateRef,
    end: StateRef,
    start_file: Option<&str>,
    end_file: Option<&str>,
    through: Vec<OpRef>,
) -> Request {
    Request {
        start_state: start,
        end_state: end,
        start_file: start_file.map(|s| s.to_string()),
        end_file: end_file.map(|s| s.to_string()),
        through,
        workdir: ".".to_string(),
    }
}

fn script(driver: &Driver, req: Request, config: Figment) -> Result<String, EmitError> {
    let plan = driver.plan(req).unwrap();
    assert!(driver.has_plan(&plan));
    Run::new(driver, plan, config, GlobalConfig::default()).emit().map(|out| out.script)
}

#[test]
fn script_of_one_operation_with_its_setup() {
    let mut bld = DriverBuilder::new("one");
    let a = bld.state("A", &["a"]);
    let b = bld.state("B", &["b"]);
    let s = bld.setup("S", Tool("x", "1"));
    bld.rule(&[s], a, b, "ab");
    let driver = bld.build();
    let text = script(&driver, request(a, b, Some("foo.a"), Some("foo.b"), vec![]), Figment::new());
    assert_eq!(
        text.unwrap(),
        "# S\nx = 1\n\n# build targets\nbuild foo.b: ab foo.a\n\ndefault foo.b\n"
    );
}

#[test]
fn shared_setup_gets_one_stanza() {
    let mut bld = DriverBuilder::new("shared");
    let a = bld.state("A", &["a"]);
    let b = bld.state("B", &["b"]);
    let c = bld.state("C", &["c"]);
    let s = bld.setup("S", Tool("x", "1"));
    let t = bld.setup("T", Tool("y", "2"));
    bld.rule(&[s, t], a, b, "ab");
    bld.rule(&[t, s, s], b, c, "bc");
    let driver = bld.build();
    let text = script(&driver, request(a, c, Some("foo.a"), Some("foo.c"), vec![]), Figment::new())
        .unwrap();
    assert_eq!(
        text,
        "# S\nx = 1\n\n# T\ny = 2\n\n# build targets\nbuild foo.b: ab foo.a\nbuild foo.c: bc foo.b\n\ndefault foo.c\n"
    );
    assert_eq!(text.matches("# S\n").count(), 1);
    assert_eq!(text.matches("# T\n").count(), 1);
}

#[test]
fn setups_with_the_same_body_are_not_merged() {
    let mut bld = DriverBuilder::new("twins");
    let a = bld.state("A", &["a"]);
    let b = bld.state("B", &["b"]);
    let s1 = bld.setup("S", Tool("x", "1"));
    let s2 = bld.setup("S", Tool("x", "1"));
    bld.rule(&[s1, s2], a, b, "ab");
    let driver = bld.build();
    let text = script(&driver, request(a, b, Some("foo.a"), Some("foo.b"), vec![]), Figment::new())
        .unwrap();
    assert_eq!(text.matches("# S\nx = 1\n\n").count(), 2);
}

#[test]
fn setups_come_in_the_order_of_first_use() {
    let mut bld = DriverBuilder::new("order");
    let a = bld.state("A", &["a"]);
    let b = bld.state("B", &["b"]);
    let c = bld.state("C", &["c"]);
    let late = bld.setup("late", Tool("l", "1"));
    let early = bld.setup("early", Tool("e", "2"));
    bld.rule(&[early], a, b, "ab");
    bld.rule(&[late, early], b, c, "bc");
    let driver = bld.build();
    let text = script(&driver, request(a, c, Some("f.a"), Some("f.c"), vec![]), Figment::new())
        .unwrap();
    assert!(text.starts_with("# early\ne = 2\n\n# late\nl = 1\n\n# build targets\n"));
}

#[test]
fn script_without_steps_names_the_input_as_default() {
    let mut bld = DriverBuilder::new("none");
    let a = bld.state("A", &["a"]);
    let driver = bld.build();
    let text = script(&driver, request(a, a, Some("foo.a"), Some("bar.a"), vec![]), Figment::new());
    assert_eq!(text.unwrap(), "# build targets\n\ndefault foo.a\n");
}

#[test]
fn script_between_the_streams_has_capture_and_show_once() {
    let mut bld = DriverBuilder::new("streams");
    let a = bld.state("A", &["a"]);
    let driver = bld.build();
    let text = script(&driver, request(a, a, None, None, vec![]), Figment::new()).unwrap();
    assert_eq!(
        text,
        "# stdin\nrule capture\n  command = cat > $out\n  pool = console\n\n\
         # stdout\nrule show\n  command = cat $in\n  pool = console\n\n\
         # build targets\nbuild stdin.a: capture\nbuild _stdout: show stdin.a\n\n\
         default _stdout\n"
    );
    assert_eq!(text.matches("rule capture").count(), 1);
    assert_eq!(text.matches("rule show").count(), 1);
}

#[test]
fn script_from_stdin_to_stdout_through_an_operation() {
    let mut bld = DriverBuilder::new("pipe");
    let a = bld.state("A", &["a"]);
    let b = bld.state("B", &["b"]);
    bld.rule(&[], a, b, "ab");
    let driver = bld.build();
    let plan = driver.plan(request(a, b, None, None, vec![])).unwrap();
    let run = Run::new(&driver, plan, Figment::new(), GlobalConfig::default());
    assert!(run.quiet());
    let out = run.emit().unwrap();
    assert!(out.files.is_empty());
    assert!(out.script.ends_with(
        "# build targets\nbuild stdin.a: capture\nbuild stdin.b: ab stdin.a\n\
         build _stdout: show stdin.b\n\ndefault _stdout\n"
    ));
}

#[test]
fn callbacks_write_with_every_primitive() {
    let mut bld = DriverBuilder::new("full");
    let a = bld.state("A", &["a"]);
    let b = bld.state("B", &["b"]);
    let conf = bld.add_setup("configured", Configured("tool", "tools.main"));
    let helper = bld.setup("helper", Helper);
    bld.op("two", &[conf, helper], a, b, TwoStage("verilog"));
    let driver = bld.build();
    let config = Figment::new().merge(("tools.main", "/opt/tool"));
    let plan = driver.plan(request(a, b, Some("in.a"), Some("out.b"), vec![])).unwrap();
    let out = Run::new(&driver, plan, config, GlobalConfig::default()).emit().unwrap();
    assert_eq!(
        out.script,
        "# configured\ntool = /opt/tool\nrule use\n  command = $tool $in > $out\n\n\
         # helper\n# helper written\n\n\
         # build targets\nbuild mid.tmp: first in.a\nbuild out.b: second mid.tmp | helper.tcl\n\
         \x20 backend = verilog\n\ndefault out.b\n"
    );
    assert_eq!(out.files, vec![("helper.tcl".to_string(), b"exit\n".to_vec())]);
}

#[test]
fn missing_configuration_stops_the_emission() {
    let mut bld = DriverBuilder::new("missing");
    let a = bld.state("A", &["a"]);
    let b = bld.state("B", &["b"]);
    let conf = bld.setup("configured", Configured("tool", "tools.main"));
    bld.rule(&[conf], a, b, "ab");
    let driver = bld.build();
    let err = script(&driver, request(a, b, Some("in.a"), Some("out.b"), vec![]), Figment::new())
        .unwrap_err();
    match &err {
        EmitError::MissingConfig(key) => assert_eq!(key, "tools.main"),
        EmitError::Io(_) => panic!("wrong error"),
    }
    assert_eq!(err.message(), "missing required config key: tools.main");
}

#[test]
fn failing_build_stops_the_emission() {
    let mut bld = DriverBuilder::new("broken");
    let a = bld.state("A", &["a"]);
    let b = bld.state("B", &["b"]);
    bld.add_op("bad", &[], a, b, Broken);
    let driver = bld.build();
    let err = script(&driver, request(a, b, Some("in.a"), Some("out.b"), vec![]), Figment::new())
        .unwrap_err();
    assert!(matches!(err, EmitError::MissingConfig(key) if key == "broken"));
}

#[test]
fn emission_is_repeatable() {
    let mut bld = DriverBuilder::new("again");
    let a = bld.state("A", &["a"]);
    let b = bld.state("B", &["b"]);
    let c = bld.state("C", &["c"]);
    let s = bld.setup("S", Configured("tool", "tool"));
    bld.rule(&[s], a, b, "ab");
    bld.op("bc", &[s], b, c, TwoStage("x"));
    let driver = bld.build();
    let first = script(
        &driver,
        request(a, c, Some("f.a"), None, vec![]),
        Figment::new().merge(("tool", "t")),
    );
    let second = script(
        &driver,
        request(a, c, Some("f.a"), None, vec![]),
        Figment::new().merge(("tool", "t")),
    );
    assert_eq!(first.unwrap(), second.unwrap());
}

#[test]
fn run_decisions() {
    let mut bld = DriverBuilder::new("run");
    let a = bld.state("A", &["a"]);
    let b = bld.state("B", &["b"]);
    bld.rule(&[], a, b, "ab");
    let driver = bld.build();
    let to_file = driver.plan(request(a, b, Some("x.a"), Some("x.b"), vec![])).unwrap();
    let run = Run::new(&driver, to_file, Figment::new(), GlobalConfig::default());
    assert!(!run.quiet());
    assert!(run.removes_dir(false, true));
    assert!(!run.removes_dir(true, true));
    assert!(!run.removes_dir(false, false));
    let empty = driver.plan(request(a, a, Some("x.a"), Some("y.a"), vec![])).unwrap();
    let keep = GlobalConfig { ninja: "samu".to_string(), keep_build_dir: true };
    let run = Run::new(&driver, empty, Figment::new(), keep);
    assert!(!run.quiet());
    assert!(!run.removes_dir(false, true));
    assert!(!run.removes_dir(true, true));
    assert_eq!(run.global_config.ninja, "samu");
}

#[test]
fn global_config_defaults() {
    let config = GlobalConfig::default();
    assert_eq!(config.ninja, "ninja");
    assert!(!config.keep_build_dir);
}
