use fake::config::GlobalConfig;
use fake::driver::{OpRef, Plan, Request, StateRef};
use fake::run::Run;
use fake::{Driver, DriverBuilder};
use figment::Figment;

fn catalog() -> (Driver, [StateRef; 3], [OpRef; 3]) {
    let mut bld = DriverBuilder::new("rep");
    let a = bld.state("alpha", &["a"]);
    let b = bld.state("beta", &["b"]);
    let c = bld.state("gamma", &["c"]);
    let ab = bld.rule(&[], a, b, "ab");
    let bc = bld.rule(&[], b, c, "bc");
    let ac = bld.rule(&[], a, c, "ac");
    (bld.build(), [a, b, c], [ab, bc, ac])
}

fn run<'a>(driver: &'a Driver, req: Request) -> Run<'a> {
    let plan = driver.plan(req).unwrap();
    Run::new(driver, plan, Figment::new(), GlobalConfig::default())
}

fn request(
    start: StateRef,
    end: StateRef,
    start_file: Option<&str>,
    end_file: Option<&str>,
    through: Vec<OpRef>,
) -> Request {
    Request {
        start_state: start,
        end_state: end,
        start_file: start_file.map(|s| s.to_string()),
        end_file: end_file.map(|s| s.to_string()),
        through,
        workdir: ".".to_string(),
    }
}

#[test]
fn report_lists_the_steps() {
    let (driver, states, ops) = catalog();
    let run = run(&driver, request(states[0], states[2], Some("foo.a"), Some("out.c"), vec![ops[0]]));
    assert_eq!(run.show(), "start: foo.a\nop0: ab -> foo.b\nop1: bc -> out.c\n");
}

#[test]
fn report_marks_the_streams() {
    let (driver, states, _) = catalog();
    let run = run(&driver, request(states[0], states[2], None, None, vec![]));
    assert_eq!(
        run.show(),
        "start: stdin\nop3: (stdin) -> stdin.a\nop2: ac -> stdin.c\nop4: (stdout) -> _stdout\n"
    );
}

#[test]
fn report_of_a_plan_without_steps() {
    let (driver, states, _) = catalog();
    let run = run(&driver, request(states[1], states[1], Some("x.b"), Some("y.b"), vec![]));
    assert_eq!(run.show(), "start: x.b\n");
}

#[test]
fn graph_marks_the_plan() {
    let (driver, states, ops) = catalog();
    let run = run(&driver, request(states[0], states[1], Some("foo.a"), Some("foo.b"), vec![]));
    assert!(run.uses_op(ops[0]));
    assert!(!run.uses_op(ops[1]));
    assert_eq!(run.file_in(states[0]), Some("foo.a"));
    assert_eq!(run.file_in(states[1]), Some("foo.b"));
    assert_eq!(run.file_in(states[2]), None);
    assert_eq!(
        run.show_dot(),
        "digraph plan {\n\
         \x20 node[shape=box];\n\
         \x20 state0 [label=\"alpha\nfoo.a\" penwidth=3 fillcolor=gray style=filled];\n\
         \x20 state1 [label=\"beta\nfoo.b\" penwidth=3 fillcolor=gray style=filled];\n\
         \x20 state2 [label=\"gamma\"];\n\
         \x20 state0 -> state1 [label=\"ab\" penwidth=3];\n\
         \x20 state1 -> state2 [label=\"bc\"];\n\
         \x20 state0 -> state2 [label=\"ac\"];\n\
         }\n"
    );
}

#[test]
fn graph_leaves_out_the_streams() {
    let (driver, states, _) = catalog();
    let run = run(&driver, request(states[0], states[2], None, None, vec![]));
    let dot = run.show_dot();
    assert_eq!(
        dot,
        "digraph plan {\n\
         \x20 node[shape=box];\n\
         \x20 state0 [label=\"alpha\"];\n\
         \x20 state1 [label=\"beta\"];\n\
         \x20 state2 [label=\"gamma\nstdin.c\" penwidth=3 fillcolor=gray style=filled];\n\
         \x20 state0 -> state1 [label=\"ab\"];\n\
         \x20 state1 -> state2 [label=\"bc\"];\n\
         \x20 state0 -> state2 [label=\"ac\" penwidth=3];\n\
         }\n"
    );
    assert!(!dot.contains("null"));
    assert!(!dot.contains("state3"));
    assert!(!dot.contains("stdout"));
}

#[test]
fn graph_shows_the_last_file_of_a_state() {
    let mut bld = DriverBuilder::new("loop");
    let a = bld.state("A", &["a"]);
    let b = bld.state("B", &["b"]);
    let ab = bld.rule(&[], a, b, "ab");
    let ba = bld.rule(&[], b, a, "ba");
    let driver = bld.build();
    let run = run(&driver, request(a, b, Some("x.a"), Some("y.b"), vec![ab, ba]));
    assert_eq!(
        run.plan.steps,
        vec![(ab, "x.b".to_string()), (ba, "x.a".to_string()), (ab, "y.b".to_string())]
    );
    assert_eq!(run.file_in(a), Some("x.a"));
    assert_eq!(run.file_in(b), Some("y.b"));
}

#[test]
fn graph_of_a_plan_without_steps_marks_nothing() {
    let (driver, states, _) = catalog();
    let plan = Plan { start: "x.b".to_string(), steps: vec![], workdir: ".".to_string() };
    let run = Run::new(&driver, plan, Figment::new(), GlobalConfig::default());
    assert_eq!(run.file_in(states[1]), None);
    assert!(!run.show_dot().contains("penwidth"));
}
