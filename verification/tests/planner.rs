use fake::driver::{Destination, OpRef, PlanError, Request, StateRef};
use fake::{Driver, DriverBuilder};

/// States A, B, C with operations p: a->b, q: b->c, r: a->c.
fn triangle() -> (Driver, [StateRef; 3], [OpRef; 3]) {
    let mut bld = DriverBuilder::new("tri");
    let a = bld.state("A", &["a"]);
    let b = bld.state("B", &["b"]);
    let c = bld.state("C", &["c"]);
    let p = bld.rule(&[], a, b, "p");
    let q = bld.rule(&[], b, c, "q");
    let r = bld.rule(&[], a, c, "r");
    (bld.build(), [a, b, c], [p, q, r])
}

/// States A, B, C with operations p: a->b, q: b->c only.
fn line() -> (Driver, [StateRef; 3], [OpRef; 2]) {
    let mut bld = DriverBuilder::new("line");
    let a = bld.state("A", &["a"]);
    let b = bld.state("B", &["b"]);
    let c = bld.state("C", &["c"]);
    let p = bld.rule(&[], a, b, "p");
    let q = bld.rule(&[], b, c, "q");
    (bld.build(), [a, b, c], [p, q])
}

fn request(
    start: StateRef,
    end: StateRef,
    start_file: Option<&str>,
    end_file: Option<&str>,
    through: Vec<OpRef>,
    workdir: &str,
) -> Request {
    Request {
        start_state: start,
        end_state: end,
        start_file: start_file.map(|s| s.to_string()),
        end_file: end_file.map(|s| s.to_string()),
        through,
        workdir: workdir.to_string(),
    }
}

#[test]
fn handles_are_dense_and_in_registration_order() {
    let (driver, states, ops) = triangle();
    assert_eq!(states[0], StateRef::from_u32(0));
    assert_eq!(states[1].as_u32(), 1);
    assert_eq!(states[2].as_u32(), 2);
    assert_eq!(ops[0].as_u32(), 0);
    assert_eq!(ops[2].as_u32(), 2);
    assert_eq!(driver.state_count(), 5);
    assert_eq!(driver.op_count(), 5);
    assert_eq!(driver.setup_count(), 2);
    assert_eq!(driver.stdin_op().as_u32(), 3);
    assert_eq!(driver.stdout_op().as_u32(), 4);
}

#[test]
fn shortest_chain_wins() {
    let (driver, states, ops) = triangle();
    let path = driver.find_path(states[0], states[2], &[]);
    assert_eq!(path, Some(vec![ops[2]]));
}

#[test]
fn waypoint_forces_the_longer_chain() {
    let (driver, states, ops) = triangle();
    let path = driver.find_path(states[0], states[2], &[ops[0]]);
    assert_eq!(path, Some(vec![ops[0], ops[1]]));
}

#[test]
fn chain_to_the_same_state_is_empty() {
    let (driver, states, _) = triangle();
    assert_eq!(driver.find_path(states[1], states[1], &[]), Some(vec![]));
}

#[test]
fn no_chain_against_the_direction_of_the_operations() {
    let (driver, states, _) = triangle();
    assert_eq!(driver.find_path(states[2], states[0], &[]), None);
}

#[test]
fn earlier_registration_breaks_ties() {
    let mut bld = DriverBuilder::new("ties");
    let a = bld.state("A", &["a"]);
    let b = bld.state("B", &["b"]);
    let c = bld.state("C", &["c"]);
    let d = bld.state("D", &["d"]);
    let ab = bld.rule(&[], a, b, "ab");
    let ac = bld.rule(&[], a, c, "ac");
    let cd = bld.rule(&[], c, d, "cd");
    let bd = bld.rule(&[], b, d, "bd");
    let ab2 = bld.rule(&[], a, b, "ab2");
    let driver = bld.build();
    assert_eq!(driver.find_path(a, b, &[]), Some(vec![ab]));
    assert_eq!(driver.find_path(a, d, &[]), Some(vec![ab, bd]));
    assert_eq!(driver.find_path(a, d, &[ac]), Some(vec![ac, cd]));
    assert_eq!(driver.find_path(a, d, &[ab2]), Some(vec![ab2, bd]));
}

#[test]
fn segment_to_an_operation_ends_with_it() {
    let (driver, states, ops) = line();
    let to_q = driver.find_path_segment(states[0], Destination::Op(ops[1]));
    assert_eq!(to_q, Some(vec![ops[0], ops[1]]));
    let to_p = driver.find_path_segment(states[0], Destination::Op(ops[0]));
    assert_eq!(to_p, Some(vec![ops[0]]));
    let to_c = driver.find_path_segment(states[0], Destination::State(states[2]));
    assert_eq!(to_c, Some(vec![ops[0], ops[1]]));
}

#[test]
fn waypoint_is_reached_through_operations_registered_after_it() {
    let mut bld = DriverBuilder::new("late");
    let a = bld.state("A", &["a"]);
    let b = bld.state("B", &["b"]);
    let c = bld.state("C", &["c"]);
    let bc = bld.rule(&[], b, c, "bc");
    let ab = bld.rule(&[], a, b, "ab");
    let driver = bld.build();
    assert_eq!(driver.find_path(a, c, &[bc]), Some(vec![ab, bc]));
}

#[test]
fn waypoints_may_force_a_cycle() {
    let mut bld = DriverBuilder::new("cycle");
    let a = bld.state("A", &["a"]);
    let b = bld.state("B", &["b"]);
    let ab = bld.rule(&[], a, b, "ab");
    let ba = bld.rule(&[], b, a, "ba");
    let driver = bld.build();
    assert_eq!(driver.find_path(a, b, &[ab, ba]), Some(vec![ab, ba, ab]));
    assert_eq!(driver.find_path(a, a, &[ab]), Some(vec![ab, ba]));
}

#[test]
fn unreachable_waypoint_leaves_no_path() {
    let (driver, states, ops) = line();
    // `p` takes A, which nothing leads to from C.
    assert_eq!(driver.find_path(states[2], states[2], &[ops[0]]), None);
    let req = request(states[2], states[2], Some("x.c"), Some("y.c"), vec![ops[0]], ".");
    assert_eq!(driver.plan(req).err(), Some(PlanError::NoPath));
}

#[test]
fn plan_of_one_operation_between_files() {
    let mut bld = DriverBuilder::new("one");
    let a = bld.state("A", &["a"]);
    let b = bld.state("B", &["b"]);
    let ab = bld.rule(&[], a, b, "ab");
    let driver = bld.build();
    let plan = driver.plan(request(a, b, Some("foo.a"), Some("foo.b"), vec![], ".")).unwrap();
    assert_eq!(plan.start, "foo.a");
    assert_eq!(plan.steps, vec![(ab, "foo.b".to_string())]);
    assert_eq!(plan.workdir, ".");
    assert_eq!(plan.end(), "foo.b");
}

#[test]
fn plan_takes_the_direct_operation() {
    let (driver, states, ops) = triangle();
    let plan = driver
        .plan(request(states[0], states[2], Some("in.a"), Some("out.c"), vec![], "."))
        .unwrap();
    assert_eq!(plan.steps, vec![(ops[2], "out.c".to_string())]);
}

#[test]
fn plan_goes_through_the_waypoint() {
    let (driver, states, ops) = triangle();
    let plan = driver
        .plan(request(states[0], states[2], Some("in.a"), Some("out.c"), vec![ops[0]], "."))
        .unwrap();
    assert_eq!(plan.steps, vec![(ops[0], "in.b".to_string()), (ops[1], "out.c".to_string())]);
}

#[test]
fn plan_between_equal_states_and_files_has_no_steps() {
    let (driver, states, _) = triangle();
    let plan = driver
        .plan(request(states[0], states[0], Some("foo.a"), Some("bar.a"), vec![], "."))
        .unwrap();
    assert_eq!(plan.start, "foo.a");
    assert!(plan.steps.is_empty());
    assert_eq!(plan.end(), "foo.a");
}

#[test]
fn plan_between_equal_states_and_streams_has_the_two_synthetic_steps() {
    let (driver, states, _) = triangle();
    let plan = driver.plan(request(states[0], states[0], None, None, vec![], ".")).unwrap();
    assert_eq!(plan.start, "stdin");
    assert_eq!(
        plan.steps,
        vec![
            (driver.stdin_op(), "stdin.a".to_string()),
            (driver.stdout_op(), "_stdout".to_string()),
        ]
    );
}

#[test]
fn plan_from_stdin_to_stdout() {
    let (driver, states, ops) = line();
    let plan = driver.plan(request(states[0], states[1], None, None, vec![], ".")).unwrap();
    assert_eq!(plan.start, "stdin");
    assert_eq!(
        plan.steps,
        vec![
            (driver.stdin_op(), "stdin.a".to_string()),
            (ops[0], "stdin.b".to_string()),
            (driver.stdout_op(), "_stdout".to_string()),
        ]
    );
    assert_eq!(plan.end(), "_stdout");
}

#[test]
fn output_file_replaces_only_the_last_name() {
    let (driver, states, ops) = line();
    let with = driver
        .plan(request(states[0], states[2], Some("foo.a"), Some("result.bin"), vec![], "."))
        .unwrap();
    assert_eq!(
        with.steps,
        vec![(ops[0], "foo.b".to_string()), (ops[1], "result.bin".to_string())]
    );
    let without = driver.plan(request(states[0], states[2], Some("foo.a"), None, vec![], ".")).unwrap();
    assert_eq!(
        without.steps,
        vec![
            (ops[0], "foo.b".to_string()),
            (ops[1], "foo.c".to_string()),
            (driver.stdout_op(), "_stdout".to_string()),
        ]
    );
}

#[test]
fn files_are_named_from_the_working_directory() {
    let (driver, states, ops) = line();
    let plan = driver
        .plan(request(states[0], states[2], Some("src/foo.a"), Some("out/final.c"), vec![], "build/"))
        .unwrap();
    assert_eq!(plan.start, "../src/foo.a");
    assert_eq!(
        plan.steps,
        vec![(ops[0], "foo.b".to_string()), (ops[1], "../out/final.c".to_string())]
    );
    assert_eq!(plan.workdir, "build/");
}

#[test]
fn stem_comes_from_the_file_name_alone() {
    let (driver, states, ops) = line();
    let plan = driver
        .plan(request(states[0], states[1], Some("/data/in/prog.v2.a"), None, vec![], "work"))
        .unwrap();
    assert_eq!(plan.start, "/data/in/prog.v2.a");
    assert_eq!(plan.steps[0], (ops[0], "prog.v2.b".to_string()));
}

#[test]
fn plan_errors() {
    let mut bld = DriverBuilder::new("errs");
    let a = bld.state("A", &["a"]);
    let b = bld.state("B", &["b"]);
    let bare = bld.state("bare", &[]);
    let _ab = bld.rule(&[], a, b, "ab");
    let _to_bare = bld.rule(&[], a, bare, "strip");
    let driver = bld.build();
    // No chain from B to A.
    assert_eq!(
        driver.plan(request(b, a, Some("x.b"), Some("x.a"), vec![], ".")).err(),
        Some(PlanError::NoPath)
    );
    // The working directory has a `..`, and the file is not below it.
    assert_eq!(
        driver.plan(request(a, b, Some("x.a"), Some("x.b"), vec![], "../w")).err(),
        Some(PlanError::NoRelativePath)
    );
    // The output cannot be named either.
    assert_eq!(
        driver.plan(request(a, b, Some("/abs/x.a"), Some("x.b"), vec![], "../w")).err(),
        Some(PlanError::NoRelativePath)
    );
    // A start file without a file name.
    assert_eq!(
        driver.plan(request(a, b, Some(".."), Some("x.b"), vec![], ".")).err(),
        Some(PlanError::NoStem)
    );
    // A step into a state without extensions.
    assert_eq!(
        driver.plan(request(a, bare, Some("x.a"), Some("x.out"), vec![], ".")).err(),
        Some(PlanError::NoExtension)
    );
    // Standard input in a state without extensions.
    assert_eq!(
        driver.plan(request(bare, bare, None, None, vec![], ".")).err(),
        Some(PlanError::NoExtension)
    );
}

#[test]
fn requests_and_plans_are_checked_against_the_catalog() {
    let (driver, states, ops) = line();
    let good = request(states[0], states[1], Some("x.a"), None, vec![ops[0]], ".");
    assert!(driver.has_request(&good));
    let bad_state = request(StateRef::from_u32(99), states[1], None, None, vec![], ".");
    assert!(!driver.has_request(&bad_state));
    let bad_op = request(states[0], states[1], None, None, vec![OpRef::from_u32(99)], ".");
    assert!(!driver.has_request(&bad_op));
    let plan = driver.plan(good).unwrap();
    assert!(driver.has_plan(&plan));
    let (other, _, _) = {
        let mut bld = DriverBuilder::new("small");
        let a = bld.state("A", &["a"]);
        (bld.build(), a, ())
    };
    let far = fake::driver::Plan {
        start: "x".to_string(),
        steps: vec![(OpRef::from_u32(7), "y".to_string())],
        workdir: ".".to_string(),
    };
    assert!(!other.has_plan(&far));
}

#[test]
fn generated_names() {
    let (driver, states, _) = line();
    assert_eq!(driver.gen_name("foo", states[1]), Some("foo.b".to_string()));
    assert_eq!(driver.gen_name("a.b", states[2]), Some("a.b.c".to_string()));
    let null_in = driver.op(driver.stdin_op()).input;
    assert_eq!(driver.gen_name("foo", null_in), None);
}

#[test]
fn plans_between_the_same_states_have_chains_of_one_length() {
    let (driver, states, _) = triangle();
    let one = driver
        .plan(request(states[0], states[2], Some("first.a"), Some("x/first.c"), vec![], "."))
        .unwrap();
    let other = driver
        .plan(request(states[0], states[2], Some("dir/second.a"), Some("second.c"), vec![], "work"))
        .unwrap();
    assert_eq!(one.steps.len(), other.steps.len());
    assert_eq!(one.steps.len(), 1);
}

#[test]
fn search_gives_the_same_chain_every_time() {
    let (driver, states, ops) = triangle();
    let first = driver.find_path(states[0], states[2], &[ops[0]]);
    let second = driver.find_path(states[0], states[2], &[ops[0]]);
    assert_eq!(first, second);
    let (again, states, ops) = triangle();
    assert_eq!(again.find_path(states[0], states[2], &[ops[0]]), first);
}

#[test]
fn consecutive_steps_are_connected() {
    let (driver, states, ops) = line();
    let plan = driver
        .plan(request(states[0], states[2], Some("f.a"), Some("f.c"), vec![ops[1]], "."))
        .unwrap();
    let mut state = states[0];
    for (op, _) in &plan.steps {
        let entry = driver.op(*op);
        assert_eq!(entry.input, state);
        state = entry.output;
    }
    assert_eq!(state, states[2]);
}
