//! Guest-side command table: what an extension builds up before it
//! hands its command names over the dispatch boundary.

use vstd::prelude::*;

verus! {

/// The set of command names an extension exposes through its single
/// dispatch entry point, in registration order.
pub struct Commands {
    names: Vec<String>,
}

impl Commands {
    /// Registered command names, in order.
    pub closed spec fn names(self) -> Seq<Seq<char>> {
        self.names@.map_values(|s: String| s@)
    }

    pub fn new() -> (r: Commands)
        ensures
            r.names() == Seq::<Seq<char>>::empty(),
    {
        let r = Commands { names: Vec::new() };
        proof {
            assert(r.names() =~= Seq::<Seq<char>>::empty());
        }
        r
    }

    /// Records one command name; the handler itself runs behind the
    /// dispatch export and is not modeled here.
    pub fn register_command<F>(self, name: &str, invoke_handler: F) -> (r: Commands) where
        F: Fn() -> String + Send + Sync + 'static
        ensures
            r.names() == self.names().push(name@),
    {
        let _ = invoke_handler;
        let mut names = self.names;
        names.push(name.to_owned());
        let r = Commands { names };
        proof {
            assert(r.names() =~= self.names().push(name@));
        }
        r
    }

    /// Hands the table over unchanged; dispatch happens behind the
    /// guest's single exported entry point.
    pub fn execute_command(self) -> (r: Commands)
        ensures
            r.names() == self.names(),
    {
        self
    }

    /// How many command names are registered.
    pub fn len(&self) -> (n: usize)
        ensures
            n == self.names().len(),
    {
        self.names.len()
    }
}

} // verus!
