//! The executor's side of the interface: a scope maps action names to bound
//! citizens, and `execute` checks that a parsed command's action is defined.
//! Invocation semantics are deliberately absent: on a defined action the
//! prior state is returned unchanged.

use vstd::prelude::*;

use crate::command::{Citizen, Command};

verus! {

/// A scope is a mapping from the spoken word to the citizen bound to it.
/// Later bindings shadow earlier ones on lookup.
pub struct Scope {
    pub entries: Vec<(String, Citizen)>,
}

impl Scope {
    /// A name is defined when some entry carries it.
    pub open spec fn contains_action(self, name: Seq<char>) -> bool {
        exists|i: int| 0 <= i < self.entries@.len() && self.entries@[i].0@ == name
    }

    /// An empty scope: nothing is defined.
    pub fn new() -> (r: Scope)
        ensures
            forall|name: Seq<char>| !r.contains_action(name),
    {
        Scope { entries: Vec::new() }
    }

    /// Bind `value` to `name`; every previously defined name stays defined.
    pub fn bind(&mut self, name: String, value: Citizen)
        ensures
            forall|n: Seq<char>|
                final(self).contains_action(n) == (old(self).contains_action(n) || n == name@),
    {
        let ghost old_entries = self.entries@;
        self.entries.push((name, value));
        proof {
            assert forall|n: Seq<char>|
                final(self).contains_action(n) == (old(self).contains_action(n) || n
                    == name@) by {
                if old(self).contains_action(n) {
                    let i = choose|i: int|
                        0 <= i < old_entries.len() && old_entries[i].0@ == n;
                    assert(self.entries@[i].0@ == n);
                }
                if n == name@ {
                    assert(self.entries@[old_entries.len() as int].0@ == n);
                }
            }
        }
    }

    /// Whether `name` is defined in this scope.
    pub fn contains(&self, name: &String) -> (r: bool)
        ensures
            r == self.contains_action(name@),
    {
        let n = self.entries.len();
        let mut i: usize = 0;
        while i < n
            invariant
                0 <= i <= n == self.entries@.len(),
                forall|k: int| 0 <= k < i ==> self.entries@[k].0@ != name@,
            decreases n - i,
        {
            if self.entries[i].0 == *name {
                return true;
            }
            i = i + 1;
        }
        false
    }
}

/// Given some initial state, execute a parsed command: the action must be
/// defined in the scope; the state is not mutated yet.
pub fn execute<T>(initial_state: T, scope: Scope, cmd: Command) -> (r: Result<T, &'static str>)
    ensures
        match r {
            Ok(t) => scope.contains_action(cmd.action@) && t == initial_state,
            Err(m) => !scope.contains_action(cmd.action@) && m@ == "Action not defined"@,
        },
{
    if !scope.contains(&cmd.action) {
        return Err("Action not defined");
    }
    Ok(initial_state)
}

} // verus!
