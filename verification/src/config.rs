//! Configuration: the global settings and the keyed store that callbacks read.

use figment::Figment;
use vstd::prelude::*;

verus! {

/// The settings that the driver itself reads.
pub struct GlobalConfig {
    /// The `ninja` command to execute in `run` mode.
    pub ninja: String,
    /// Never delete the temporary directory used to execute ninja in `run` mode.
    pub keep_build_dir: bool,
}

impl Default for GlobalConfig {
    fn default() -> (r: Self)
        ensures
            r.ninja@ == "ninja"@,
            !r.keep_build_dir,
    {
        GlobalConfig { ninja: String::from_str("ninja"), keep_build_dir: false }
    }
}

/// The layered configuration store, kept as the `figment` crate built it.
#[verifier::external_type_specification]
#[verifier::external_body]
pub struct ExFigment(Figment);

/// The strings that a configuration store yields, by dotted key: the keys
/// whose value can be read as a string, each with that string.
pub uninterp spec fn config_strings(data: Figment) -> Map<Seq<char>, Seq<char>>;

/// `Figment::extract_inner::<String>`: the string at `key`, or `None` where
/// the store has no value there or the value is no string. The claim is that
/// the outcome depends on the store and the key alone.
#[verifier::external_body]
pub(crate) fn lookup(data: &Figment, key: &str) -> (r: Option<String>)
    ensures
        r matches Some(v) ==> config_strings(*data).contains_key(key@) && config_strings(
            *data,
        )[key@] == v@,
        r is None ==> !config_strings(*data).contains_key(key@),
{
    data.extract_inner::<String>(key).ok()
}

} // verus!
