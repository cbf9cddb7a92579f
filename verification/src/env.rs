//! Environment variables as plain data, so expansion and command resolution are functions of
//! what the caller hands in rather than of the process they happen to run in.

use crate::json::str_eq;
use vstd::prelude::*;

verus! {

/// A set of environment variables. When a name occurs more than once, the first occurrence is
/// the one that counts.
pub struct Env {
    pub vars: Vec<(String, String)>,
}

/// The value of the first variable called `name`.
pub open spec fn env_get(vars: Seq<(String, String)>, name: Seq<char>) -> Option<Seq<char>>
    decreases vars.len(),
{
    if vars.len() == 0 {
        None
    } else if vars[0].0@ == name {
        Some(vars[0].1@)
    } else {
        env_get(vars.drop_first(), name)
    }
}

impl Env {
    /// An environment with the given variables.
    pub fn from_pairs(vars: Vec<(String, String)>) -> (r: Env)
        ensures
            r.vars@ == vars@,
    {
        Env { vars }
    }

    /// An environment with no variables at all.
    pub fn empty() -> (r: Env)
        ensures
            r.vars@.len() == 0,
    {
        Env { vars: Vec::new() }
    }

    pub open spec fn get_spec(&self, name: Seq<char>) -> Option<Seq<char>> {
        env_get(self.vars@, name)
    }

    /// The value of `name`, if it is set.
    pub fn lookup(&self, name: &str) -> (r: Option<String>)
        ensures
            match r {
                Some(v) => self.get_spec(name@) == Some(v@),
                None => self.get_spec(name@).is_none(),
            },
    {
        let mut i: usize = 0;
        assert(self.vars@.skip(0) =~= self.vars@);
        while i < self.vars.len()
            invariant
                i <= self.vars@.len(),
                env_get(self.vars@, name@) == env_get(self.vars@.skip(i as int), name@),
            decreases self.vars@.len() - i,
        {
            assert(self.vars@.skip(i as int).drop_first() =~= self.vars@.skip(i + 1));
            assert(self.vars@.skip(i as int)[0] == self.vars@[i as int]);
            if str_eq(self.vars[i].0.as_str(), name) {
                return Some(self.vars[i].1.clone());
            }
            i = i + 1;
        }
        None
    }
}

} // verus!
