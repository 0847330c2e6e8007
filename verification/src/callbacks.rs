//! What setups and operations do at emission time: the two traits that a
//! catalog's author implements, and the callbacks that every catalog has.

use crate::emitter::{arg_line, build_line, edge_line, rule_lines, EmitResult, Emitter};
use crate::text::lemma_join_assoc;
use vstd::prelude::*;

verus! {

/// Code to emit a Ninja `build` command.
pub trait EmitBuild {
    /// The text that `build` writes for this input and output, where that is
    /// known. Where it is not, `build` may write any text, add files, or fail.
    open spec fn text(&self, input: Seq<char>, output: Seq<char>) -> Option<Seq<char>> {
        None
    }

    /// Writes the build command that makes `output` from `input`. It may
    /// add to the script and to the files of the emitter, and change nothing
    /// else.
    fn build(&self, emitter: &mut Emitter, input: &str, output: &str) -> (r: EmitResult)
        ensures
            final(emitter).continues(old(emitter)),
            self.text(input@, output@) matches Some(t) ==> r is Ok && final(emitter).wrote(
                old(emitter),
                t,
            ),
    ;
}

/// Code to emit Ninja code at the setup stage.
pub trait EmitSetup {
    /// The text that `setup` writes, where that is known. Where it is not,
    /// `setup` may write any text, add files, or fail.
    open spec fn text(&self) -> Option<Seq<char>> {
        None
    }

    /// Writes the stanza of the setup. It may add to the script and to the
    /// files of the emitter, and change nothing else.
    fn setup(&self, emitter: &mut Emitter) -> (r: EmitResult)
        ensures
            final(emitter).continues(old(emitter)),
            self.text() matches Some(t) ==> r is Ok && final(emitter).wrote(old(emitter), t),
    ;
}

/// A simple `build` emitter that just runs a Ninja rule.
pub struct EmitRuleBuild {
    pub rule_name: String,
}

/// An operation that works by applying a Ninja rule.
pub type RuleOp = EmitRuleBuild;

impl EmitBuild for EmitRuleBuild {
    open spec fn text(&self, input: Seq<char>, output: Seq<char>) -> Option<Seq<char>> {
        Some(edge_line(self.rule_name@, input, output))
    }

    fn build(&self, emitter: &mut Emitter, input: &str, output: &str) -> (r: EmitResult) {
        emitter.build(self.rule_name.as_str(), input, output)
    }
}

/// The rule that captures standard input in a file, on the console pool.
pub struct CaptureSetup;

/// The rule that shows a file on standard output, on the console pool.
pub struct ShowSetup;

/// The build edge that produces a file from standard input.
pub struct CaptureBuild;

/// The build edge that sends a file to standard output.
pub struct ShowBuild;

impl EmitSetup for CaptureSetup {
    open spec fn text(&self) -> Option<Seq<char>> {
        Some(rule_lines("capture"@, "cat > $out"@) + arg_line("pool"@, "console"@))
    }

    fn setup(&self, emitter: &mut Emitter) -> (r: EmitResult) {
        let _ = emitter.rule("capture", "cat > $out");
        let r = emitter.arg("pool", "console");
        proof {
            lemma_join_assoc(
                old(emitter).out@,
                rule_lines("capture"@, "cat > $out"@),
                arg_line("pool"@, "console"@),
            );
        }
        r
    }
}

impl EmitSetup for ShowSetup {
    open spec fn text(&self) -> Option<Seq<char>> {
        Some(rule_lines("show"@, "cat $in"@) + arg_line("pool"@, "console"@))
    }

    fn setup(&self, emitter: &mut Emitter) -> (r: EmitResult) {
        let _ = emitter.rule("show", "cat $in");
        let r = emitter.arg("pool", "console");
        proof {
            lemma_join_assoc(
                old(emitter).out@,
                rule_lines("show"@, "cat $in"@),
                arg_line("pool"@, "console"@),
            );
        }
        r
    }
}

impl EmitBuild for CaptureBuild {
    open spec fn text(&self, input: Seq<char>, output: Seq<char>) -> Option<Seq<char>> {
        Some(build_line(output, "capture"@, Seq::empty(), Seq::empty()))
    }

    fn build(&self, emitter: &mut Emitter, input: &str, output: &str) -> (r: EmitResult) {
        let none: [&str; 0] = [];
        assert(none@ =~= Seq::<&str>::empty());
        emitter.build_cmd(output, "capture", &none, &none)
    }
}

impl EmitBuild for ShowBuild {
    open spec fn text(&self, input: Seq<char>, output: Seq<char>) -> Option<Seq<char>> {
        Some(edge_line("show"@, input, output))
    }

    fn build(&self, emitter: &mut Emitter, input: &str, output: &str) -> (r: EmitResult) {
        emitter.build("show", input, output)
    }
}

} // verus!
