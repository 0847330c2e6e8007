use fake::config::GlobalConfig;
use fake::driver::EmitError;
use fake::run::Emitter;
use figment::Figment;

fn emitter(workdir: &str) -> Emitter {
    let config = Figment::new()
        .merge(("ninja", "ninja"))
        .merge(("calyx.base", "/opt/calyx"))
        .merge(("sim.cycle_limit", 500))
        .merge(("python", "python3.11"));
    Emitter::new(config, GlobalConfig::default(), workdir.to_string())
}

#[test]
fn new_emitter_is_empty() {
    let e = emitter("build");
    assert_eq!(e.out, "");
    assert_eq!(e.workdir, "build");
    assert!(e.files.is_empty());
    assert_eq!(e.global_config.ninja, "ninja");
}

#[test]
fn var_writes_a_declaration() {
    let mut e = emitter(".");
    e.var("calyx_exe", "$calyx_base/target/debug/calyx").unwrap();
    assert_eq!(e.out, "calyx_exe = $calyx_base/target/debug/calyx\n");
}

#[test]
fn rule_writes_name_and_command() {
    let mut e = emitter(".");
    e.rule("mrxl-to-calyx", "$mrxl_exec $in > $out").unwrap();
    assert_eq!(e.out, "rule mrxl-to-calyx\n  command = $mrxl_exec $in > $out\n");
}

#[test]
fn build_writes_output_rule_input() {
    let mut e = emitter(".");
    e.build("icarus-compile", "sim.sv", "icarus_bin").unwrap();
    assert_eq!(e.out, "build icarus_bin: icarus-compile sim.sv\n");
}

#[test]
fn build_cmd_writes_dependencies() {
    let mut e = emitter(".");
    e.build_cmd("emconfig.json", "emconfig", &[], &[]).unwrap();
    e.build_cmd("sim.log", "sim-run", &["bin", "$datadir"], &[]).unwrap();
    e.build_cmd("out.xo", "gen-xo", &[], &["main.sv", "toplevel.v", "kernel.xml"]).unwrap();
    e.build_cmd("o", "xclrun", &["i", "$sim_data"], &["emconfig.json"]).unwrap();
    assert_eq!(
        e.out,
        "build emconfig.json: emconfig\n\
         build sim.log: sim-run bin $datadir\n\
         build out.xo: gen-xo | main.sv toplevel.v kernel.xml\n\
         build o: xclrun i $sim_data | emconfig.json\n"
    );
}

#[test]
fn arg_comment_and_filename() {
    let mut e = emitter(".");
    e.arg("pool", "console").unwrap();
    e.comment("build targets").unwrap();
    e.filename("a b/$c.x").unwrap();
    assert_eq!(e.out, "  pool = console\n# build targets\na b/$c.x");
}

#[test]
fn primitives_write_in_order() {
    let mut e = emitter(".");
    e.comment("S").unwrap();
    e.var("x", "1").unwrap();
    e.rule("r", "c").unwrap();
    e.arg("pool", "console").unwrap();
    e.build("r", "i", "o").unwrap();
    assert_eq!(e.out, "# S\nx = 1\nrule r\n  command = c\n  pool = console\nbuild o: r i\n");
}

#[test]
fn config_val_reads_strings() {
    let e = emitter(".");
    assert_eq!(e.config_val("calyx.base").unwrap(), "/opt/calyx");
    assert_eq!(e.config_val("python").unwrap(), "python3.11");
    match e.config_val("calyx.exe") {
        Err(EmitError::MissingConfig(key)) => assert_eq!(key, "calyx.exe"),
        _ => panic!("a missing key has to be reported"),
    }
    // A table is no string.
    assert!(matches!(e.config_val("calyx"), Err(EmitError::MissingConfig(key)) if key == "calyx"));
}

#[test]
fn config_or_falls_back_on_any_failure() {
    let e = emitter(".");
    assert_eq!(e.config_or("python", "python3"), "python3.11");
    assert_eq!(e.config_or("verilator.exe", "verilator"), "verilator");
    assert_eq!(e.config_or("calyx", "fallback"), "fallback");
}

#[test]
fn config_var_declares_the_configured_value() {
    let mut e = emitter(".");
    e.config_var("calyx_base", "calyx.base").unwrap();
    e.config_var_or("python", "python", "python3").unwrap();
    e.config_var_or("cider", "cider.exe", "$calyx_base/target/debug/cider").unwrap();
    assert_eq!(
        e.out,
        "calyx_base = /opt/calyx\npython = python3.11\ncider = $calyx_base/target/debug/cider\n"
    );
    let failed = e.config_var("vivado_dir", "xilinx.vivado");
    assert!(matches!(failed, Err(EmitError::MissingConfig(key)) if key == "xilinx.vivado"));
    assert_eq!(
        e.out,
        "calyx_base = /opt/calyx\npython = python3.11\ncider = $calyx_base/target/debug/cider\n"
    );
}

#[test]
fn external_path_is_seen_from_the_working_directory() {
    let e = emitter("build");
    assert_eq!(e.external_path("data/in.json"), Some("../data/in.json".to_string()));
    assert_eq!(e.external_path("build/in.json"), Some("in.json".to_string()));
    assert_eq!(e.external_path("/abs/in.json"), Some("/abs/in.json".to_string()));
    assert_eq!(emitter("../w").external_path("in.json"), None);
    assert_eq!(emitter(".").external_path("data/in.json"), Some("data/in.json".to_string()));
}

#[test]
fn add_file_keeps_the_files_in_order() {
    let mut e = emitter("build");
    e.add_file("a.tcl", b"open\n").unwrap();
    e.add_file("b.ini", &[0, 255]).unwrap();
    assert_eq!(e.out, "");
    assert_eq!(
        e.files,
        vec![("a.tcl".to_string(), b"open\n".to_vec()), ("b.ini".to_string(), vec![0, 255])]
    );
}

#[test]
fn errors_have_a_message() {
    let missing = EmitError::MissingConfig("sim.data".to_string());
    assert_eq!(missing.message(), "missing required config key: sim.data");
    let io = EmitError::from(std::io::Error::new(std::io::ErrorKind::NotFound, "gone"));
    assert!(matches!(io, EmitError::Io(_)));
    assert_eq!(io.message(), "gone");
}
