//! The process environment, handed to the library as plain values.
use vstd::prelude::*;

use crate::text::text_eq;

verus! {

/// One variable of the environment.
pub struct EnvVar {
    pub name: String,
    pub value: String,
}

/// A snapshot of environment variables; where a name is set twice, the later
/// setting wins.
pub struct Env {
    vars: Vec<EnvVar>,
}

/// The value bound last to `name` in `vars`.
pub open spec fn lookup(vars: Seq<(Seq<char>, Seq<char>)>, name: Seq<char>) -> Option<Seq<char>>
    decreases vars.len(),
{
    if vars.len() == 0 {
        None
    } else if vars.last().0 == name {
        Some(vars.last().1)
    } else {
        lookup(vars.drop_last(), name)
    }
}

impl Env {
    pub closed spec fn bindings(&self) -> Seq<(Seq<char>, Seq<char>)> {
        self.vars@.map_values(|v: EnvVar| (v.name@, v.value@))
    }

    /// The value of variable `name`, if it is set.
    pub open spec fn var(&self, name: Seq<char>) -> Option<Seq<char>> {
        lookup(self.bindings(), name)
    }

    /// An environment with no variable set.
    pub fn new() -> (e: Env)
        ensures
            forall|n: Seq<char>| #[trigger] e.var(n) is None,
    {
        let e = Env { vars: Vec::new() };
        assert(e.bindings() =~= Seq::<(Seq<char>, Seq<char>)>::empty());
        e
    }

    /// Sets variable `name` to `value`.
    pub fn set(&mut self, name: String, value: String)
        ensures
            forall|n: Seq<char>|
                #[trigger] final(self).var(n) == if n == name@ {
                    Some(value@)
                } else {
                    old(self).var(n)
                },
    {
        let ghost nv = name@;
        let ghost vv = value@;
        self.vars.push(EnvVar { name, value });
        proof {
            assert(self.bindings().drop_last() =~= old(self).bindings());
            assert(self.bindings().last() == (nv, vv));
        }
    }

    /// The value of variable `name`, if it is set (`std::env::var` on the snapshot).
    pub fn get(&self, name: &str) -> (r: Option<String>)
        ensures
            r.deep_view() == self.var(name@),
    {
        let mut i = self.vars.len();
        proof {
            assert(self.bindings().take(i as int) =~= self.bindings());
        }
        while i > 0
            invariant
                i <= self.vars.len(),
                self.var(name@) == lookup(self.bindings().take(i as int), name@),
            decreases i,
        {
            let v = &self.vars[i - 1];
            proof {
                assert(self.bindings().take(i as int).drop_last() =~= self.bindings().take(i - 1));
                assert(self.bindings().take(i as int).last() == (v.name@, v.value@));
            }
            if text_eq(v.name.as_str(), name) {
                return Some(v.value.clone());
            }
            i = i - 1;
        }
        None
    }
}

} // verus!
