//! The entries of a catalog: states, operations and setups.

use crate::callbacks::{
    CaptureBuild, CaptureSetup, EmitBuild, EmitRuleBuild, EmitSetup, ShowBuild, ShowSetup,
};
use crate::emitter::edge_line;
use crate::refs::{SetupRef, StateRef};
use crate::text::same_text;
use vstd::prelude::*;

verus! {

/// A State is a type of file that Operations produce or consume.
pub struct State {
    pub name: String,
    pub extensions: Vec<String>,
}

/// An Operation transforms files from one State to another.
pub struct Operation {
    pub name: String,
    pub input: StateRef,
    pub output: StateRef,
    pub setups: Vec<SetupRef>,
    pub emit: Box<dyn EmitBuild>,
}

/// A Setup runs at configuration time and produces Ninja machinery for Operations.
pub struct Setup {
    pub name: String,
    pub emit: Box<dyn EmitSetup>,
}

impl State {
    /// Whether `ext` is one of the extensions of this state.
    pub open spec fn has_extension(&self, ext: Seq<char>) -> bool {
        exists|i: int| 0 <= i < self.extensions@.len() && (#[trigger] self.extensions@[i])@ == ext
    }

    /// Check whether a filename extension indicates this state.
    pub fn ext_matches(&self, ext: &str) -> (r: bool)
        ensures
            r == self.has_extension(ext@),
    {
        let mut i: usize = 0;
        while i < self.extensions.len()
            invariant
                i <= self.extensions.len(),
                forall|j: int| 0 <= j < i ==> (#[trigger] self.extensions@[j])@ != ext@,
            decreases self.extensions.len() - i,
        {
            if same_text(self.extensions[i].as_str(), ext) {
                return true;
            }
            i = i + 1;
        }
        false
    }

    /// The extension that generated file names get: the first one.
    pub open spec fn primary_extension(&self) -> Option<Seq<char>> {
        if self.extensions@.len() > 0 {
            Some(self.extensions@[0]@)
        } else {
            None
        }
    }
}

impl Operation {
    /// An operation from `input` to `output` that emits its build command
    /// with `emit`.
    pub fn new<T: EmitBuild + 'static>(
        name: String,
        setups: Vec<SetupRef>,
        input: StateRef,
        output: StateRef,
        emit: T,
    ) -> (r: Self)
        ensures
            r.name == name,
            r.setups == setups,
            r.input == input,
            r.output == output,
    {
        Operation { name, input, output, setups, emit: Box::new(emit) }
    }

    /// An operation whose build command applies the rule `rule_name` to one
    /// input and one output.
    pub fn rule(
        name: String,
        setups: Vec<SetupRef>,
        input: StateRef,
        output: StateRef,
        rule_name: String,
    ) -> (r: Self)
        ensures
            r.name == name,
            r.setups == setups,
            r.input == input,
            r.output == output,
            forall|from: Seq<char>, to: Seq<char>| #[trigger]
                r.emit.text(from, to) == Some(edge_line(rule_name@, from, to)),
    {
        Operation { name, input, output, setups, emit: Box::new(EmitRuleBuild { rule_name }) }
    }

    /// The operation that captures standard input in a file of its own.
    pub fn capture(name: String, setups: Vec<SetupRef>, state: StateRef) -> (r: Self)
        ensures
            r.name == name,
            r.setups == setups,
            r.input == state,
            r.output == state,
            forall|from: Seq<char>, to: Seq<char>| #[trigger]
                r.emit.text(from, to) == CaptureBuild.text(from, to),
    {
        Operation { name, input: state, output: state, setups, emit: Box::new(CaptureBuild) }
    }

    /// The operation that shows a file on standard output.
    pub fn show(name: String, setups: Vec<SetupRef>, state: StateRef) -> (r: Self)
        ensures
            r.name == name,
            r.setups == setups,
            r.input == state,
            r.output == state,
            forall|from: Seq<char>, to: Seq<char>| #[trigger]
                r.emit.text(from, to) == ShowBuild.text(from, to),
    {
        Operation { name, input: state, output: state, setups, emit: Box::new(ShowBuild) }
    }
}

impl Setup {
    /// A setup that emits its stanza with `emit`.
    pub fn new<T: EmitSetup + 'static>(name: String, emit: T) -> (r: Self)
        ensures
            r.name == name,
    {
        Setup { name, emit: Box::new(emit) }
    }

    /// The setup with the rule that captures standard input.
    pub fn capture(name: String) -> (r: Self)
        ensures
            r.name == name,
            r.emit.text() == CaptureSetup.text(),
    {
        Setup { name, emit: Box::new(CaptureSetup) }
    }

    /// The setup with the rule that shows a file on standard output.
    pub fn show(name: String) -> (r: Self)
        ensures
            r.name == name,
            r.emit.text() == ShowSetup.text(),
    {
        Setup { name, emit: Box::new(ShowSetup) }
    }
}

} // verus!
