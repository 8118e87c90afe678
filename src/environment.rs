//! A snapshot of environment variables: the names the substituter may resolve
//! and their values.
use vstd::prelude::*;

verus! {

/// The map that a list of bindings denotes: a later binding of a name hides an
/// earlier one.
pub open spec fn bindings(vars: Seq<(String, String)>) -> Map<Seq<char>, Seq<char>>
    decreases vars.len(),
{
    if vars.len() == 0 {
        Map::empty()
    } else {
        bindings(vars.drop_last()).insert(vars.last().0@, vars.last().1@)
    }
}

/// Variable names and their values.
pub struct Environment {
    vars: Vec<(String, String)>,
}

impl View for Environment {
    type V = Map<Seq<char>, Seq<char>>;

    closed spec fn view(&self) -> Map<Seq<char>, Seq<char>> {
        bindings(self.vars@)
    }
}

impl Environment {
    /// An environment in which no variable is set.
    pub fn new() -> (r: Environment)
        ensures
            r@ == Map::<Seq<char>, Seq<char>>::empty(),
    {
        Environment { vars: Vec::new() }
    }

    /// Sets `name` to `value`, replacing any value it had.
    pub fn set(&mut self, name: &str, value: &str)
        ensures
            final(self)@ == old(self)@.insert(name@, value@),
    {
        let ghost before = self.vars@;
        self.vars.push((String::from_str(name), String::from_str(value)));
        assert(self.vars@.drop_last() =~= before);
    }

    /// The value of `name`, or `None` where it is not set.
    pub fn get(&self, name: &str) -> (r: Option<String>)
        ensures
            r is Some <==> self@.contains_key(name@),
            r matches Some(v) ==> v@ == self@[name@],
    {
        let key = String::from_str(name);
        let ghost n = name@;
        let mut k: usize = self.vars.len();
        assert(self.vars@.take(k as int) =~= self.vars@);
        while k > 0
            invariant
                k <= self.vars.len(),
                key@ == n,
                n == name@,
                bindings(self.vars@.take(k as int)).contains_key(n) == self@.contains_key(n),
                self@.contains_key(n) ==> bindings(self.vars@.take(k as int))[n] == self@[n],
            decreases k,
        {
            k = k - 1;
            assert(self.vars@.take(k + 1).drop_last() =~= self.vars@.take(k as int));
            assert(self.vars@.take(k + 1).last() == self.vars@[k as int]);
            assert(bindings(self.vars@.take(k + 1)) == bindings(self.vars@.take(k as int)).insert(
                self.vars@[k as int].0@,
                self.vars@[k as int].1@,
            ));
            if self.vars[k].0 == key {
                return Some(self.vars[k].1.clone());
            }
        }
        None
    }
}

} // verus!
