//! The variables that a command line may refer to.

use vstd::prelude::*;
use vstd::hash_map::StringHashMap;
use vstd::string::StringExecFns;

verus! {

/// The name of the variable that holds the user's home directory.
pub const HOME: &'static str = "HOME";

/// The name of the variable that holds the search path for commands.
pub const PATH: &'static str = "PATH";

/// A snapshot of variables: a mapping from names to values, consulted when a
/// line is lexed and never changed by it.
pub struct Variables {
    map: StringHashMap<String>,
}

impl View for Variables {
    type V = Map<Seq<char>, Seq<char>>;

    closed spec fn view(&self) -> Map<Seq<char>, Seq<char>> {
        Map::new(|name: Seq<char>| self.map@.contains_key(name), |name: Seq<char>| self.map@[name]@)
    }
}

/// The value that `name` has in `vars`, if it has one.
pub open spec fn value_of(vars: Map<Seq<char>, Seq<char>>, name: Seq<char>) -> Option<Seq<char>> {
    if vars.contains_key(name) {
        Some(vars[name])
    } else {
        None
    }
}

impl Variables {
    /// No variables.
    pub fn new() -> (out: Self)
        ensures
            out@ == Map::<Seq<char>, Seq<char>>::empty(),
    {
        let out = Variables { map: StringHashMap::new() };
        assert(out@ =~= Map::<Seq<char>, Seq<char>>::empty());
        out
    }

    /// Gives `name` the value `value`, in place of any value it had.
    pub fn set(&mut self, name: &str, value: &str)
        ensures
            final(self)@ == old(self)@.insert(name@, value@),
    {
        self.map.insert(String::from_str(name), String::from_str(value));
        assert(self@ =~= old(self)@.insert(name@, value@));
    }

    /// The value of `name`, if it has one.
    pub fn get(&self, name: &str) -> (out: Option<&String>)
        ensures
            out.deep_view() == value_of(self@, name@),
    {
        self.map.get(name)
    }

    /// The variables of a session: `HOME` and `PATH` with the given values.
    pub fn of_session(home: &str, path: &str) -> (out: Self)
        ensures
            out@ == Map::<Seq<char>, Seq<char>>::empty().insert(HOME@, home@).insert(PATH@, path@),
    {
        let mut out = Variables::new();
        out.set(HOME, home);
        out.set(PATH, path);
        out
    }
}

} // verus!
