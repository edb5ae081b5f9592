//! The configuration of a run.

use vstd::prelude::*;

verus! {

/// A list of paths as texts.
pub open spec fn texts(paths: Seq<String>) -> Seq<Seq<char>> {
    paths.map_values(|path: String| path@)
}

/// What a run was asked to do. Built once before any processing and only
/// read afterwards.
#[derive(Debug, PartialEq, Eq)]
pub struct Config {
    /// The input paths, in the order given.
    pub args: Vec<String>,
    /// Forces restricted mode whatever name the program was invoked by.
    pub brp: bool,
}

impl Config {
    /// The input paths as texts.
    pub open spec fn paths(&self) -> Seq<Seq<char>> {
        texts(self.args@)
    }

    pub fn new(args: Vec<String>, brp: bool) -> (config: Config)
        ensures
            config.args == args,
            config.brp == brp,
    {
        Config { args, brp }
    }
}

} // verus!
