//! The matches of one run of a parser, and the accessors that read them.

use crate::matched::{MatchedArg, SubCommand};
use crate::store::{ordered_values, stored_values, vec_map_contents};
use crate::text::{lossy_utf8, utf8_lossy, utf8_str};
use crate::values::{OsValues, Values};
use vstd::hash_map::StringHashMap;
use vstd::prelude::*;
use vstd::utf8::{decode_utf8, valid_utf8};

verus! {

/// What was found at runtime: the arguments that were given, keyed by name,
/// the subcommand that was used, if any, and the usage line, if any.
pub struct ArgMatches {
    pub args: StringHashMap<MatchedArg>,
    pub subcommand: Option<Box<SubCommand>>,
    pub usage: Option<String>,
}

impl ArgMatches {
    /// The raw values of the argument `name`, or `None` when it was not given.
    pub open spec fn arg_values(self, name: Seq<char>) -> Option<Seq<Seq<u8>>> {
        if self.args@.contains_key(name) {
            Some(self.args@[name].values())
        } else {
            None
        }
    }

    /// The first raw value of the argument `name`, if it was given with one.
    pub open spec fn first_value(self, name: Seq<char>) -> Option<Seq<u8>> {
        match self.arg_values(name) {
            Some(vs) => if vs.len() > 0 {
                Some(vs[0])
            } else {
                None
            },
            None => None,
        }
    }

    /// Whether `name` names the subcommand that was used.
    pub open spec fn names_subcommand(self, name: Seq<char>) -> bool {
        self.subcommand matches Some(sc) && sc.name@ == name
    }

    /// Whether `name` was present: as the subcommand used, or as an argument given.
    pub open spec fn present(self, name: Seq<char>) -> bool {
        self.names_subcommand(name) || self.args@.contains_key(name)
    }

    /// How often the argument `name` occurred; zero when it was not given.
    pub open spec fn occurrences(self, name: Seq<char>) -> u8 {
        if self.args@.contains_key(name) {
            self.args@[name].occurs
        } else {
            0
        }
    }

    /// The matches of the subcommand `name`, when that is the subcommand used.
    pub open spec fn matches_of(self, name: Seq<char>) -> Option<ArgMatches> {
        match self.subcommand {
            Some(sc) => if sc.name@ == name {
                Some(sc.matches)
            } else {
                None
            },
            None => None,
        }
    }

    /// Whether these matches hold nothing: no argument, no subcommand, no usage line.
    pub open spec fn is_empty(self) -> bool {
        &&& self.args@ == Map::<Seq<char>, MatchedArg>::empty()
        &&& self.subcommand is None
        &&& self.usage is None
    }

    /// Matches that hold nothing yet.
    pub fn new() -> (r: Self)
        ensures
            r.is_empty(),
    {
        ArgMatches::default()
    }

    /// The first value of the option or positional argument `name` as text,
    /// or `None` when it was not given or was given without a value. Later
    /// values are not looked at; `values_of` gives them all.
    pub fn value_of(&self, name: &str) -> (r: Option<&str>)
        requires
            self.first_value(name@) matches Some(v) ==> valid_utf8(v),
        ensures
            match self.first_value(name@) {
                Some(v) => r matches Some(s) && s@ == decode_utf8(v),
                None => r is None,
            },
    {
        match self.args.get(name) {
            Some(arg) => {
                let vals = stored_values(&arg.vals);
                if vals.len() > 0 {
                    let first: &Vec<u8> = vals[0];
                    utf8_str(first.as_slice())
                } else {
                    None
                }
            },
            None => None,
        }
    }

    /// The first value of the argument `name` as text, with every invalid
    /// UTF-8 sequence replaced by U+FFFD; `None` when it was not given or was
    /// given without a value.
    pub fn lossy_value_of(&self, name: &str) -> (r: Option<String>)
        ensures
            match self.first_value(name@) {
                Some(v) => r matches Some(s) && s@ == lossy_utf8(v) && (valid_utf8(v) ==> s@
                    == decode_utf8(v)),
                None => r is None,
            },
    {
        match self.args.get(name) {
            Some(arg) => {
                let vals = stored_values(&arg.vals);
                if vals.len() > 0 {
                    let first: &Vec<u8> = vals[0];
                    Some(utf8_lossy(first.as_slice()))
                } else {
                    None
                }
            },
            None => None,
        }
    }

    /// The raw bytes of the first value of the argument `name`, or `None`
    /// when it was not given or was given without a value.
    pub fn os_value_of(&self, name: &str) -> (r: Option<&[u8]>)
        ensures
            match self.first_value(name@) {
                Some(v) => r matches Some(b) && b@ == v,
                None => r is None,
            },
    {
        match self.args.get(name) {
            Some(arg) => {
                let vals = stored_values(&arg.vals);
                if vals.len() > 0 {
                    let first: &Vec<u8> = vals[0];
                    Some(first.as_slice())
                } else {
                    None
                }
            },
            None => None,
        }
    }

    /// All values of the argument `name`, read as text one by one, or `None`
    /// when it was not given.
    pub fn values_of(&self, name: &str) -> (r: Option<Values<'_>>)
        ensures
            match self.arg_values(name@) {
                Some(vs) => r matches Some(it) && it.view() == vs && it.hint() == vs.len(),
                None => r is None,
            },
    {
        match self.args.get(name) {
            Some(arg) => {
                let vals = stored_values(&arg.vals);
                let it = Values::from_items(vals);
                assert(it.view() =~= arg.values());
                Some(it)
            },
            None => None,
        }
    }

    /// All values of the argument `name` as text, with every invalid UTF-8
    /// sequence replaced by U+FFFD, or `None` when it was not given.
    pub fn lossy_values_of(&self, name: &str) -> (r: Option<Vec<String>>)
        ensures
            match self.arg_values(name@) {
                Some(vs) => r matches Some(out) && out@.len() == vs.len() && forall|i: int|
                    0 <= i < vs.len() ==> #[trigger] out@[i]@ == lossy_utf8(vs[i]) && (valid_utf8(
                        vs[i],
                    ) ==> out@[i]@ == decode_utf8(vs[i])),
                None => r is None,
            },
    {
        match self.args.get(name) {
            Some(arg) => {
                let vals = stored_values(&arg.vals);
                let mut out: Vec<String> = Vec::new();
                let mut i: usize = 0;
                while i < vals.len()
                    invariant
                        i <= vals@.len(),
                        out@.len() == i,
                        vals@.len() == arg.values().len(),
                        forall|j: int| 0 <= j < vals@.len() ==> #[trigger] vals@[j]@ == arg.values()[j],
                        forall|j: int|
                            0 <= j < i ==> #[trigger] out@[j]@ == lossy_utf8(arg.values()[j]) && (
                            valid_utf8(arg.values()[j]) ==> out@[j]@ == decode_utf8(
                                arg.values()[j],
                            )),
                    decreases vals@.len() - i,
                {
                    let v: &Vec<u8> = vals[i];
                    out.push(utf8_lossy(v.as_slice()));
                    i = i + 1;
                }
                Some(out)
            },
            None => None,
        }
    }

    /// All values of the argument `name` as raw bytes, one by one, or `None`
    /// when it was not given.
    pub fn os_values_of(&self, name: &str) -> (r: Option<OsValues<'_>>)
        ensures
            match self.arg_values(name@) {
                Some(vs) => r matches Some(it) && it.view() == vs && it.hint() == vs.len(),
                None => r is None,
            },
    {
        match self.args.get(name) {
            Some(arg) => {
                let vals = stored_values(&arg.vals);
                let it = OsValues::from_items(vals);
                assert(it.view() =~= arg.values());
                Some(it)
            },
            None => None,
        }
    }

    /// Whether `name` was present at runtime, as an argument or as the name
    /// of the subcommand that was used.
    pub fn is_present(&self, name: &str) -> (r: bool)
        ensures
            r == self.present(name@),
    {
        if let Some(sc) = &self.subcommand {
            if sc.name == name.to_owned() {
                return true;
            }
        }
        self.args.contains_key(name)
    }

    /// How often the argument `name` occurred at runtime; `0` when it was not given.
    pub fn occurrences_of(&self, name: &str) -> (r: u8)
        ensures
            r == self.occurrences(name@),
    {
        match self.args.get(name) {
            Some(a) => a.occurs,
            None => 0,
        }
    }

    /// The matches of the subcommand `name`, or `None` when that subcommand
    /// was not used (also when no subcommand was used at all).
    pub fn subcommand_matches(&self, name: &str) -> (r: Option<&ArgMatches>)
        ensures
            match self.matches_of(name@) {
                Some(m) => r matches Some(x) && *x == m,
                None => r is None,
            },
    {
        match &self.subcommand {
            Some(sc) => if sc.name == name.to_owned() {
                Some(&sc.matches)
            } else {
                None
            },
            None => None,
        }
    }

    /// The name of the subcommand that was used, or `None` when none was.
    pub fn subcommand_name(&self) -> (r: Option<&str>)
        ensures
            match self.subcommand {
                Some(sc) => r matches Some(s) && s@ == sc.name@,
                None => r is None,
            },
    {
        match &self.subcommand {
            Some(sc) => Some(sc.name.as_str()),
            None => None,
        }
    }

    /// The name and the matches of the subcommand that was used, or `("", None)`
    /// when none was.
    pub fn subcommand(&self) -> (r: (&str, Option<&ArgMatches>))
        ensures
            match self.subcommand {
                Some(sc) => r.0@ == sc.name@ && (r.1 matches Some(m) && *m == sc.matches),
                None => r.0@ == Seq::<char>::empty() && r.1 is None,
            },
    {
        match &self.subcommand {
            Some(sc) => (sc.name.as_str(), Some(&sc.matches)),
            None => {
                proof {
                    reveal_strlit("");
                }
                ("", None)
            },
        }
    }

    /// The usage line of the program or subcommand, or `""` when there is none.
    pub fn usage(&self) -> (r: &str)
        ensures
            match self.usage {
                Some(u) => r@ == u@,
                None => r@ == Seq::<char>::empty(),
            },
    {
        match &self.usage {
            Some(u) => u.as_str(),
            None => {
                proof {
                    reveal_strlit("");
                }
                ""
            },
        }
    }
}

/// How often an argument occurred is the count recorded for it when it was
/// given, whatever number of values it holds, and zero when it was not given.
pub proof fn lemma_occurrences_are_the_recorded_count(m: ArgMatches, name: Seq<char>)
    ensures
        m.args@.contains_key(name) ==> m.occurrences(name) == m.args@[name].occurs,
        !m.args@.contains_key(name) ==> m.occurrences(name) == 0,
{
}

/// A name is present exactly when it is the name of the subcommand used at
/// this level or a key of these matches' own arguments; arguments given to
/// the subcommand do not count here.
pub proof fn lemma_present_exactly_when_given_here(m: ArgMatches, name: Seq<char>)
    ensures
        m.present(name) <==> ((m.subcommand matches Some(sc) && sc.name@ == name)
            || m.args@.contains_key(name)),
{
}

/// The matches of a subcommand are found only by the name of the subcommand
/// used directly at this level, never by the name of one nested inside it,
/// and they are that subcommand's own matches.
pub proof fn lemma_subcommand_found_only_by_its_own_name(m: ArgMatches, name: Seq<char>)
    ensures
        m.names_subcommand(name) <==> (m.subcommand matches Some(sc) && sc.name@ == name),
        m.matches_of(name) is Some <==> (m.subcommand matches Some(sc) && sc.name@ == name),
        m.matches_of(name) matches Some(sub) ==> (m.subcommand matches Some(sc) && sub
            == sc.matches),
{
}

/// The values read by name are all the values stored for the argument, in
/// ascending order of their keys, none left out; `None` when it was not given.
pub proof fn lemma_values_are_all_stored_values(m: ArgMatches, name: Seq<char>)
    ensures
        m.args@.contains_key(name) ==> m.arg_values(name) == Some(
            ordered_values(vec_map_contents(m.args@[name].vals)),
        ),
        !m.args@.contains_key(name) ==> m.arg_values(name) is None,
{
}

/// The single value read by name is the stored value with the lowest key;
/// there is none when the argument was not given or holds no value.
pub proof fn lemma_first_value_has_the_lowest_key(m: ArgMatches, name: Seq<char>)
    ensures
        (m.args@.contains_key(name) && ordered_values(vec_map_contents(m.args@[name].vals)).len()
            > 0) ==> m.first_value(name) == Some(
            ordered_values(vec_map_contents(m.args@[name].vals))[0],
        ),
        (m.args@.contains_key(name) && ordered_values(vec_map_contents(m.args@[name].vals)).len()
            == 0) ==> m.first_value(name) is None,
        !m.args@.contains_key(name) ==> m.first_value(name) is None,
{
}

/// An argument that has values, or that occurred, was present.
pub proof fn lemma_given_arguments_are_present(m: ArgMatches, name: Seq<char>)
    ensures
        m.arg_values(name) is Some ==> m.present(name),
        m.first_value(name) is Some ==> m.present(name),
        m.occurrences(name) > 0 ==> m.present(name),
{
}

/// The single value read by name is the first of the values read by name,
/// and there is one exactly when the argument was given with at least one value.
pub proof fn lemma_first_value_heads_values(m: ArgMatches, name: Seq<char>)
    ensures
        m.first_value(name) is Some <==> (m.arg_values(name) matches Some(vs) && vs.len() > 0),
        m.first_value(name) matches Some(v) ==> v == m.arg_values(name).unwrap()[0],
{
}

/// The matches of a subcommand are found by name exactly when that name is
/// the name of the subcommand used, and that name then counts as present.
pub proof fn lemma_subcommand_lookup(m: ArgMatches, name: Seq<char>)
    ensures
        m.matches_of(name) is Some <==> m.names_subcommand(name),
        m.names_subcommand(name) ==> m.present(name),
        m.matches_of(name) matches Some(sub) ==> sub == m.subcommand.unwrap().matches,
{
}

/// Matches that hold nothing report no argument, value, occurrence or
/// subcommand for any name.
pub proof fn lemma_empty_matches_report_nothing(m: ArgMatches, name: Seq<char>)
    requires
        m.is_empty(),
    ensures
        !m.present(name),
        m.arg_values(name) is None,
        m.first_value(name) is None,
        m.occurrences(name) == 0,
        m.matches_of(name) is None,
{
}

impl Default for ArgMatches {
    /// Matches that hold nothing yet.
    fn default() -> (r: Self)
        ensures
            r.is_empty(),
    {
        ArgMatches { args: StringHashMap::new(), subcommand: None, usage: None }
    }
}

} // verus!
