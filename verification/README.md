# clap (matches)

The part of a command line parser that hands back what was parsed: for each
argument given, how often it occurred and its values, the subcommand used and
the usage line. Each accessor is a verified function whose contract states its
result over a model of the matches.

- `src/arg_matches.rs`: `ArgMatches`, its accessors and the laws that relate them.
- `src/matched.rs`: `MatchedArg` (one argument) and `SubCommand`.
- `src/values.rs`: `Values` and `OsValues`, the value iterators of one argument.
- `src/iter.rs`: `Iter`, an iterator over the occupied slots of a slot vector,
  and the laws of runs of its calls.
- `src/runs.rs`: runs of calls from both ends of a cursor, and their laws.
- `src/store.rs`, `src/text.rs`: the trusted items over `vec_map::VecMap` and
  the UTF-8 conversions of the standard library.
- `app/lib.rs`: operating-system strings and standard `Iterator` adapters.
