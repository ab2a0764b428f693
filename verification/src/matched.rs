//! What was matched for one argument, and the subcommand that was used.

use crate::arg_matches::ArgMatches;
use crate::store::stored;
use vec_map::VecMap;
use vstd::prelude::*;

verus! {

/// One argument that was given at runtime: how often, and with which values.
/// `vals` maps the position of each value to its raw bytes.
pub struct MatchedArg {
    pub occurs: u8,
    pub vals: VecMap<Vec<u8>>,
}

impl MatchedArg {
    /// The raw values of the argument, in the order of their positions.
    pub open spec fn values(self) -> Seq<Seq<u8>> {
        stored(self.vals)
    }
}

/// The subcommand that was used, with its name and its own matches.
pub struct SubCommand {
    pub name: String,
    pub matches: ArgMatches,
}

} // verus!
