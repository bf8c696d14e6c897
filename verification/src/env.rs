//! Environments: the values of the variables of an expression.

use vstd::hash_map::StringHashMap;
use vstd::prelude::*;

verus! {

/// A binding of variable names to integers.
pub struct Env {
    vars: StringHashMap<i32>,
}

impl View for Env {
    type V = Map<Seq<char>, i32>;

    closed spec fn view(&self) -> Map<Seq<char>, i32> {
        self.vars@
    }
}

impl Env {
    /// The environment that binds no variable.
    pub fn new() -> (env: Env)
        ensures
            env@ == Map::<Seq<char>, i32>::empty(),
    {
        Env { vars: StringHashMap::new() }
    }

    /// Binds `name` to `value`, in place of an earlier binding of `name`, if
    /// there was one.
    pub fn insert(&mut self, name: &str, value: i32)
        ensures
            final(self)@ == old(self)@.insert(name@, value),
    {
        self.vars.insert(String::from_str(name), value);
    }

    /// The value that `name` is bound to.
    pub fn get(&self, name: &str) -> (r: Option<i32>)
        ensures
            r == if self@.contains_key(name@) {
                Some(self@[name@])
            } else {
                None
            },
    {
        match self.vars.get(name) {
            Some(v) => Some(*v),
            None => None,
        }
    }
}

} // verus!
