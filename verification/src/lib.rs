//! What a command line parser found: the arguments that were given, their
//! values and occurrence counts, the subcommand that was used and the usage
//! line, each read back through a verified accessor.

pub mod store;
pub mod text;
pub mod matched;
pub mod arg_matches;
pub mod values;
pub mod iter;
pub mod runs;

pub use arg_matches::ArgMatches;
pub use iter::Iter;
pub use matched::{MatchedArg, SubCommand};
pub use values::{OsValues, Values};
pub use vstd::hash_map::StringHashMap;
