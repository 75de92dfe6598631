//! Run configuration: validation of the raw command-line tokens and the
//! guarantee that the resulting configuration depends only on the query
//! token, the file-path token and the case toggle.

use vstd::prelude::*;

verus! {

/// Why a configuration could not be built from the raw arguments.
#[derive(Clone, Copy, Debug, PartialEq, Eq, Structural)]
pub enum ConfigError {
    /// Fewer than the two required positional arguments were supplied.
    MissingArgument,
}

/// The parameters of one search run, immutable after construction.
#[derive(Debug)]
pub struct Config {
    /// The substring being searched for.
    pub query: String,
    /// The path of the file whose contents are searched.
    pub file_path: String,
    /// True when matching lowercases both the query and each line.
    pub ignore_case: bool,
}

/// The mathematical content of a [`Config`]: its three fields as plain values.
#[verifier::ext_equal]
pub ghost struct ConfigView {
    pub query: Seq<char>,
    pub file_path: Seq<char>,
    pub ignore_case: bool,
}

impl View for Config {
    type V = ConfigView;

    open spec fn view(&self) -> ConfigView {
        ConfigView {
            query: self.query@,
            file_path: self.file_path@,
            ignore_case: self.ignore_case,
        }
    }
}

/// The configuration that [`Config::build`] produces from `args` and the
/// case toggle: the token at position 1 becomes the query, the token at
/// position 2 the file path; position 0 carries no value.
pub open spec fn built_config(args: Seq<Seq<char>>, ignore_case: bool) -> ConfigView
    recommends
        args.len() >= 3,
{
    ConfigView { query: args[1], file_path: args[2], ignore_case }
}

impl Config {
    /// Validates the raw argument tokens and assembles a configuration.
    ///
    /// Position 0 of `args` is conventionally the program invocation name and
    /// is ignored; positions 1 and 2 must be present and become the query and
    /// the file path. The case toggle is passed in by the caller, which reads
    /// it from whatever boundary signal it uses.
    pub fn build(args: &[String], ignore_case: bool) -> (result: Result<Config, ConfigError>)
        ensures
            args@.len() >= 3 ==> result is Ok && result->Ok_0@ == built_config(
                args.deep_view(),
                ignore_case,
            ),
            args@.len() < 3 ==> result == Err::<Config, ConfigError>(ConfigError::MissingArgument),
    {
        if args.len() < 3 {
            return Err(ConfigError::MissingArgument);
        }
        let query = args[1].clone();
        let file_path = args[2].clone();
        Ok(Config { query, file_path, ignore_case })
    }
}

impl PartialEq for Config {
    /// Structural equality: two configurations are equal exactly when their
    /// three fields are.
    fn eq(&self, other: &Config) -> (r: bool) {
        self.query == other.query && self.file_path == other.file_path && self.ignore_case
            == other.ignore_case
    }
}

impl vstd::std_specs::cmp::PartialEqSpecImpl for Config {
    open spec fn obeys_eq_spec() -> bool {
        true
    }

    open spec fn eq_spec(&self, other: &Config) -> bool {
        self@ == other@
    }
}

/// Two argument lists that agree on the query and file-path positions yield
/// the same configuration under the same case toggle, whatever stands at
/// position 0 or beyond position 2.
pub proof fn lemma_config_equality(args1: Seq<Seq<char>>, args2: Seq<Seq<char>>, ignore_case: bool)
    requires
        args1.len() >= 3,
        args2.len() >= 3,
        args1[1] == args2[1],
        args1[2] == args2[2],
    ensures
        built_config(args1, ignore_case) == built_config(args2, ignore_case),
{
}

} // verus!
