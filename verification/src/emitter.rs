//! The emitter: the script under construction and the primitives that
//! setup and build callbacks write it with.

use crate::config::{config_strings, lookup, GlobalConfig};
use crate::paths::{relative_path, relative_path_spec};
use figment::Figment;
use vstd::prelude::*;

verus! {

/// The failure of the operating system that a callback ran into.
#[verifier::external_type_specification]
#[verifier::external_body]
pub struct ExIoError(std::io::Error);

/// An error that arises while emitting the Ninja file.
#[derive(Debug)]
pub enum EmitError {
    Io(std::io::Error),
    MissingConfig(String),
}

/// What a callback and each primitive of the emitter returns.
pub type EmitResult = Result<(), EmitError>;

/// `std::io::Error::to_string`: the message of the operating system's error.
#[verifier::external_body]
fn io_message(e: &std::io::Error) -> String {
    e.to_string()
}

impl EmitError {
    /// What `message` writes for a missing configuration key.
    pub open spec fn missing_text(key: Seq<char>) -> Seq<char> {
        "missing required config key: "@ + key
    }

    /// The error in words.
    pub fn message(&self) -> (r: String)
        ensures
            self matches EmitError::MissingConfig(key) ==> r@ == Self::missing_text(key@),
    {
        match self {
            EmitError::Io(e) => io_message(e),
            EmitError::MissingConfig(key) => String::from_str(
                "missing required config key: ",
            ).concat(key.as_str()),
        }
    }
}

impl From<std::io::Error> for EmitError {
    fn from(e: std::io::Error) -> (r: Self) {
        EmitError::Io(e)
    }
}

impl vstd::std_specs::convert::FromSpecImpl<std::io::Error> for EmitError {
    open spec fn obeys_from_spec() -> bool {
        true
    }

    open spec fn from_spec(e: std::io::Error) -> Self {
        EmitError::Io(e)
    }
}

/// The words of `items`, each with a space before it.
pub open spec fn spaced(items: Seq<&str>) -> Seq<char>
    decreases items.len(),
{
    if items.len() == 0 {
        Seq::empty()
    } else {
        spaced(items.drop_last()) + " "@ + items.last()@
    }
}

/// A variable declaration.
pub open spec fn var_line(name: Seq<char>, value: Seq<char>) -> Seq<char> {
    name + " = "@ + value + "\n"@
}

/// A rule definition with its command.
pub open spec fn rule_lines(name: Seq<char>, command: Seq<char>) -> Seq<char> {
    "rule "@ + name + "\n"@ + "  command = "@ + command + "\n"@
}

/// A build edge: the target, the rule, the dependencies and, after a bar,
/// the implicit dependencies where there are any.
pub open spec fn build_line(
    target: Seq<char>,
    rule: Seq<char>,
    deps: Seq<&str>,
    implicit_deps: Seq<&str>,
) -> Seq<char> {
    "build "@ + target + ": "@ + rule + spaced(deps) + (if implicit_deps.len() == 0 {
        Seq::<char>::empty()
    } else {
        " |"@ + spaced(implicit_deps)
    }) + "\n"@
}

/// A build edge with one input and one output.
pub open spec fn edge_line(rule: Seq<char>, input: Seq<char>, output: Seq<char>) -> Seq<char> {
    "build "@ + output + ": "@ + rule + " "@ + input + "\n"@
}

/// A build edge with one dependency and no implicit ones is written as
/// `edge_line` has it.
pub proof fn lemma_single_edge(rule: Seq<char>, input: &str, output: Seq<char>)
    ensures
        build_line(output, rule, seq![input], Seq::<&str>::empty()) == edge_line(
            rule,
            input@,
            output,
        ),
{
    let deps: Seq<&str> = seq![input];
    assert(deps.drop_last() =~= Seq::<&str>::empty());
    assert(spaced(deps.drop_last()) =~= Seq::<char>::empty());
    assert(spaced(deps) =~= " "@ + input@);
    assert(build_line(output, rule, deps, Seq::<&str>::empty()) =~= edge_line(
        rule,
        input@,
        output,
    ));
}

/// An indented argument of the rule or build edge before it.
pub open spec fn arg_line(name: Seq<char>, value: Seq<char>) -> Seq<char> {
    "  "@ + name + " = "@ + value + "\n"@
}

/// A comment.
pub open spec fn comment_line(text: Seq<char>) -> Seq<char> {
    "# "@ + text + "\n"@
}

/// Writes the words of `items`, each with a space before it.
pub fn words(items: &[&str]) -> (r: String)
    ensures
        r@ == spaced(items@),
{
    let mut r = String::new();
    let mut i: usize = 0;
    assert(items@.take(0) =~= Seq::<&str>::empty());
    while i < items.len()
        invariant
            i <= items.len(),
            r@ == spaced(items@.take(i as int)),
        decreases items.len() - i,
    {
        proof {
            let next = items@.take(i + 1);
            assert(next.drop_last() =~= items@.take(i as int));
            assert(next.last() == items@[i as int]);
        }
        r.append(" ");
        r.append(items[i]);
        i = i + 1;
    }
    assert(items@.take(i as int) =~= items@);
    r
}

/// The build script under construction, with what the callbacks may read:
/// the configuration and the working directory.
pub struct Emitter {
    /// The script written so far.
    pub out: String,
    pub config_data: Figment,
    pub global_config: GlobalConfig,
    /// The directory that the build will happen in.
    pub workdir: String,
    /// The files to create in the working directory, each with its contents.
    pub files: Vec<(String, Vec<u8>)>,
}

impl Emitter {
    /// The files added so far, each as its name and its contents.
    pub open spec fn files_view(&self) -> Seq<(Seq<char>, Seq<u8>)> {
        self.files@.map_values(|f: (String, Vec<u8>)| (f.0@, f.1@))
    }

    /// `self` is `before` with text added at the end of the script and files
    /// added at the end of the list, and nothing else changed.
    pub open spec fn continues(&self, before: &Emitter) -> bool {
        &&& self.config_data == before.config_data
        &&& self.global_config == before.global_config
        &&& self.workdir == before.workdir
        &&& before.out@.is_prefix_of(self.out@)
        &&& before.files_view().is_prefix_of(self.files_view())
    }

    /// `self` is `before` with `text` added at the end of the script.
    pub open spec fn wrote(&self, before: &Emitter, text: Seq<char>) -> bool {
        &&& self.config_data == before.config_data
        &&& self.global_config == before.global_config
        &&& self.workdir == before.workdir
        &&& self.out@ == before.out@ + text
        &&& self.files == before.files
    }

    /// An emitter with an empty script and no files.
    pub fn new(config_data: Figment, global_config: GlobalConfig, workdir: String) -> (r: Self)
        ensures
            r.out@ == Seq::<char>::empty(),
            r.config_data == config_data,
            r.global_config == global_config,
            r.workdir == workdir,
            r.files@ == Seq::<(String, Vec<u8>)>::empty(),
    {
        Emitter { out: String::new(), config_data, global_config, workdir, files: Vec::new() }
    }

    /// Fetch a configuration value, or fail where it is missing.
    pub fn config_val(&self, key: &str) -> (r: Result<String, EmitError>)
        ensures
            match r {
                Ok(v) => config_strings(self.config_data).contains_key(key@) && v@
                    == config_strings(self.config_data)[key@],
                Err(EmitError::MissingConfig(k)) => !config_strings(self.config_data).contains_key(
                    key@,
                ) && k@ == key@,
                Err(_) => false,
            },
    {
        match lookup(&self.config_data, key) {
            Some(v) => Ok(v),
            None => Err(EmitError::MissingConfig(String::from_str(key))),
        }
    }

    /// What `config_or` yields: the configured string, or the default.
    pub open spec fn config_or_spec(&self, key: Seq<char>, default: Seq<char>) -> Seq<char> {
        if config_strings(self.config_data).contains_key(key) {
            config_strings(self.config_data)[key]
        } else {
            default
        }
    }

    /// Fetch a configuration value, using a default if it's missing.
    pub fn config_or(&self, key: &str, default: &str) -> (r: String)
        ensures
            r@ == self.config_or_spec(key@, default@),
    {
        match lookup(&self.config_data, key) {
            Some(v) => v,
            None => String::from_str(default),
        }
    }

    /// Emit a Ninja variable declaration for `name` based on the configured value for `key`.
    pub fn config_var(&mut self, name: &str, key: &str) -> (r: EmitResult)
        ensures
            match r {
                Ok(_) => {
                    &&& config_strings(old(self).config_data).contains_key(key@)
                    &&& final(self).wrote(
                        old(self),
                        var_line(name@, config_strings(old(self).config_data)[key@]),
                    )
                },
                Err(EmitError::MissingConfig(k)) => {
                    &&& !config_strings(old(self).config_data).contains_key(key@)
                    &&& k@ == key@
                    &&& *final(self) == *old(self)
                },
                Err(_) => false,
            },
    {
        match self.config_val(key) {
            Ok(v) => self.var(name, v.as_str()),
            Err(e) => Err(e),
        }
    }

    /// Emit a Ninja variable declaration for `name` based on the configured value for `key`, or a
    /// default value if it's missing.
    pub fn config_var_or(&mut self, name: &str, key: &str, default: &str) -> (r: EmitResult)
        ensures
            r is Ok,
            final(self).wrote(old(self), var_line(name@, old(self).config_or_spec(key@, default@))),
    {
        let v = self.config_or(key, default);
        self.var(name, v.as_str())
    }

    /// Emit a Ninja variable declaration.
    pub fn var(&mut self, name: &str, value: &str) -> (r: EmitResult)
        ensures
            r is Ok,
            final(self).wrote(old(self), var_line(name@, value@)),
    {
        let line = String::from_str(name).concat(" = ").concat(value).concat("\n");
        self.out.append(line.as_str());
        Ok(())
    }

    /// Emit a Ninja rule definition.
    pub fn rule(&mut self, name: &str, command: &str) -> (r: EmitResult)
        ensures
            r is Ok,
            final(self).wrote(old(self), rule_lines(name@, command@)),
    {
        let lines = String::from_str("rule ").concat(name).concat("\n").concat(
            "  command = ",
        ).concat(command).concat("\n");
        self.out.append(lines.as_str());
        Ok(())
    }

    /// Emit a simple Ninja build command with one dependency.
    pub fn build(&mut self, rule: &str, input: &str, output: &str) -> (r: EmitResult)
        ensures
            r is Ok,
            final(self).wrote(old(self), edge_line(rule@, input@, output@)),
    {
        let deps = [input];
        let none: [&str; 0] = [];
        assert(deps@ =~= seq![input]);
        assert(none@ =~= Seq::<&str>::empty());
        proof {
            lemma_single_edge(rule@, input, output@);
        }
        self.build_cmd(output, rule, &deps, &none)
    }

    /// Emit a Ninja build command.
    pub fn build_cmd(
        &mut self,
        target: &str,
        rule: &str,
        deps: &[&str],
        implicit_deps: &[&str],
    ) -> (r: EmitResult)
        ensures
            r is Ok,
            final(self).wrote(old(self), build_line(target@, rule@, deps@, implicit_deps@)),
    {
        let implicit = if implicit_deps.len() > 0 {
            String::from_str(" |").concat(words(implicit_deps).as_str())
        } else {
            String::new()
        };
        let line = String::from_str("build ").concat(target).concat(": ").concat(rule).concat(
            words(deps).as_str(),
        ).concat(implicit.as_str()).concat("\n");
        self.out.append(line.as_str());
        Ok(())
    }

    /// Emit a Ninja comment.
    pub fn comment(&mut self, text: &str) -> (r: EmitResult)
        ensures
            r is Ok,
            final(self).wrote(old(self), comment_line(text@)),
    {
        let line = String::from_str("# ").concat(text).concat("\n");
        self.out.append(line.as_str());
        Ok(())
    }

    /// Add a file to the build directory.
    pub fn add_file(&mut self, name: &str, contents: &[u8]) -> (r: EmitResult)
        ensures
            r is Ok,
            final(self).config_data == old(self).config_data,
            final(self).global_config == old(self).global_config,
            final(self).workdir == old(self).workdir,
            final(self).out == old(self).out,
            final(self).files_view() == old(self).files_view().push((name@, contents@)),
    {
        let data = vstd::slice::slice_to_vec(contents);
        self.files.push((String::from_str(name), data));
        assert(self.files_view() =~= old(self).files_view().push((name@, contents@)));
        Ok(())
    }

    /// Get a path to an external file. The input `path` may be relative to the directory of
    /// the invocation; we make it relative to the build directory so it can safely be used in
    /// the Ninja file. `None` where only the file system can tell.
    pub fn external_path(&self, path: &str) -> (r: Option<String>)
        ensures
            match r {
                Some(p) => relative_path_spec(path@, self.workdir@) == Some(p@),
                None => relative_path_spec(path@, self.workdir@) is None,
            },
    {
        relative_path(path, self.workdir.as_str())
    }

    /// Add a variable parameter to a rule or build command.
    pub fn arg(&mut self, name: &str, value: &str) -> (r: EmitResult)
        ensures
            r is Ok,
            final(self).wrote(old(self), arg_line(name@, value@)),
    {
        let line = String::from_str("  ").concat(name).concat(" = ").concat(value).concat("\n");
        self.out.append(line.as_str());
        Ok(())
    }

    /// Emit the text of a path as it stands.
    pub fn filename(&mut self, path: &str) -> (r: EmitResult)
        ensures
            r is Ok,
            final(self).wrote(old(self), path@),
    {
        self.out.append(path);
        Ok(())
    }
}

} // verus!
