use fake::driver::{OpRef, SetupRef, State, StateRef, CAPACITY};
use fake::{Driver, DriverBuilder};

fn hardware() -> Driver {
    let mut bld = DriverBuilder::new("hw");
    let calyx = bld.state("calyx", &["futil"]);
    let verilog = bld.state("verilog", &["sv", "v"]);
    let dat = bld.state("dat", &["json"]);
    let _debug = bld.state("debug", &[]);
    let _copy = bld.state("calyx", &["sv"]);
    bld.rule(&[], calyx, verilog, "calyx-to-verilog");
    bld.rule(&[], verilog, dat, "simulate");
    bld.rule(&[], calyx, dat, "simulate");
    bld.build()
}

#[test]
fn ext_matches_any_of_the_extensions() {
    let state = State { name: "verilog".to_string(), extensions: vec!["sv".to_string(), "v".to_string()] };
    assert!(state.ext_matches("sv"));
    assert!(state.ext_matches("v"));
    assert!(!state.ext_matches("s"));
    assert!(!state.ext_matches(""));
    let bare = State { name: "debug".to_string(), extensions: vec![] };
    assert!(!bare.ext_matches("sv"));
}

#[test]
fn states_are_guessed_from_the_extension() {
    let driver = hardware();
    assert_eq!(driver.guess_state("foo.futil"), Some(StateRef::from_u32(0)));
    assert_eq!(driver.guess_state("dir.d/foo.v"), Some(StateRef::from_u32(1)));
    assert_eq!(driver.guess_state("foo.tar.json"), Some(StateRef::from_u32(2)));
    // The first state with the extension wins.
    assert_eq!(driver.guess_state("foo.sv"), Some(StateRef::from_u32(1)));
    assert_eq!(driver.guess_state("foo"), None);
    assert_eq!(driver.guess_state("foo.txt"), None);
    assert_eq!(driver.guess_state(".futil"), None);
    assert_eq!(driver.state_for_extension("v"), Some(StateRef::from_u32(1)));
    assert_eq!(driver.state_for_extension("x"), None);
}

#[test]
fn lookups_by_name_find_the_first_entry() {
    let driver = hardware();
    assert_eq!(driver.get_state("calyx"), Some(StateRef::from_u32(0)));
    assert_eq!(driver.get_state("dat"), Some(StateRef::from_u32(2)));
    assert_eq!(driver.get_state("debug"), Some(StateRef::from_u32(3)));
    assert_eq!(driver.get_state("nothing"), None);
    assert_eq!(driver.get_op("calyx-to-verilog"), Some(OpRef::from_u32(0)));
    assert_eq!(driver.get_op("simulate"), Some(OpRef::from_u32(1)));
    assert_eq!(driver.get_op("verilog"), None);
}

#[test]
fn lookup_gives_back_the_handle_of_a_name() {
    let mut bld = DriverBuilder::new("names");
    let a = bld.state("A", &["a"]);
    let b = bld.state("B", &["b"]);
    let s = bld.setup("first", fake::callbacks::CaptureSetup);
    let t = bld.setup("second", fake::callbacks::ShowSetup);
    let ab = bld.rule(&[s], a, b, "ab");
    let ba = bld.rule(&[t], b, a, "ba");
    let driver = bld.build();
    for (handle, name) in [(a, "A"), (b, "B")] {
        assert_eq!(driver.state(handle).name, name);
        assert_eq!(driver.get_state(name), Some(handle));
    }
    for (handle, name) in [(ab, "ab"), (ba, "ba")] {
        assert_eq!(driver.op(handle).name, name);
        assert_eq!(driver.get_op(name), Some(handle));
    }
    for (handle, name) in [(s, "first"), (t, "second")] {
        assert_eq!(driver.setup(handle).name, name);
        assert_eq!(driver.get_setup(name), Some(handle));
    }
    assert_eq!(driver.get_setup("third"), None);
}

#[test]
fn frozen_catalog_has_the_entries_for_the_streams() {
    let driver = hardware();
    assert_eq!(driver.name(), "hw");
    assert_eq!(driver.default_workdir(), ".hw");
    assert_eq!(driver.state_count(), 7);
    assert_eq!(driver.op_count(), 5);
    assert_eq!(driver.setup_count(), 2);
    let null_in = driver.get_state("null-in").unwrap();
    let null_out = driver.get_state("null-out").unwrap();
    assert_eq!(null_in, StateRef::from_u32(5));
    assert_eq!(null_out, StateRef::from_u32(6));
    assert!(driver.state(null_in).extensions.is_empty());
    assert!(driver.state(null_out).extensions.is_empty());
    assert_eq!(driver.get_op("stdin"), Some(driver.stdin_op()));
    assert_eq!(driver.get_op("stdout"), Some(driver.stdout_op()));
    let stdin = driver.op(driver.stdin_op());
    assert_eq!((stdin.input, stdin.output), (null_in, null_in));
    assert_eq!(stdin.setups, vec![driver.get_setup("stdin").unwrap()]);
    let stdout = driver.op(driver.stdout_op());
    assert_eq!((stdout.input, stdout.output), (null_out, null_out));
    assert_eq!(stdout.setups, vec![driver.get_setup("stdout").unwrap()]);
}

#[test]
fn entries_hold_what_was_registered() {
    let mut bld = DriverBuilder::new("reg");
    assert_eq!((bld.state_count(), bld.op_count(), bld.setup_count()), (0, 0, 0));
    let a = bld.state("A", &["a", "aa"]);
    let b = bld.state("B", &[]);
    let s = bld.setup("S", fake::callbacks::ShowSetup);
    let op = bld.rule(&[s, s], a, b, "ab");
    assert_eq!((bld.state_count(), bld.op_count(), bld.setup_count()), (2, 1, 1));
    let driver = bld.build();
    assert_eq!(driver.state(a).extensions, vec!["a".to_string(), "aa".to_string()]);
    assert!(driver.state(b).extensions.is_empty());
    let entry = driver.op(op);
    assert_eq!(entry.name, "ab");
    assert_eq!((entry.input, entry.output), (a, b));
    assert_eq!(entry.setups, vec![s, s]);
    assert!(driver.has_state(b));
    assert!(!driver.has_state(StateRef::from_u32(4)));
    assert!(driver.has_op(driver.stdout_op()));
    assert!(!driver.has_op(OpRef::from_u32(3)));
    assert!(driver.has_setup(SetupRef::from_u32(2)));
    assert!(!driver.has_setup(SetupRef::from_u32(3)));
}

#[test]
fn handles_are_written_with_their_kind() {
    assert_eq!(StateRef::from_u32(0).label(), "state0");
    assert_eq!(OpRef::from_u32(12).label(), "op12");
    assert_eq!(SetupRef::from_u32(305).label(), "setup305");
    assert_eq!(SetupRef::from_u32(7).as_u32(), 7);
}

#[test]
fn capacity_leaves_room_for_the_entries_of_the_streams() {
    assert!(CAPACITY + 2 <= u32::MAX as usize);
}
