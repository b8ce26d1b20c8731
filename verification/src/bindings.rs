//! The variable bindings collected while a path is resolved: a mapping from
//! variable name to the literal segment text it matched. A binding recorded
//! later overrides an earlier one under the same name.

use vstd::prelude::*;
use crate::path::str_eq;

verus! {

/// The map that a sequence of recorded (name, value) pairs denotes:
/// pairs recorded later win.
pub open spec fn map_of(pairs: Seq<(String, String)>) -> Map<Seq<char>, Seq<char>>
    decreases pairs.len(),
{
    if pairs.len() == 0 {
        Map::empty()
    } else {
        map_of(pairs.drop_last()).insert(pairs.last().0@, pairs.last().1@)
    }
}

/// Variable bindings accumulated during one query, viewed as a map from
/// variable name to matched text.
pub struct Bindings {
    pairs: Vec<(String, String)>,
}

impl View for Bindings {
    type V = Map<Seq<char>, Seq<char>>;

    closed spec fn view(&self) -> Map<Seq<char>, Seq<char>> {
        map_of(self.pairs@)
    }
}

impl Bindings {
    /// An empty set of bindings.
    pub fn new() -> (r: Bindings)
        ensures
            r@ == Map::<Seq<char>, Seq<char>>::empty(),
    {
        Bindings { pairs: Vec::new() }
    }

    /// Records that variable `name` matched the text `value`, overriding any
    /// earlier binding of the same name.
    pub fn insert(&mut self, name: String, value: String)
        ensures
            final(self)@ == old(self)@.insert(name@, value@),
    {
        let ghost gname = name@;
        let ghost gvalue = value@;
        self.pairs.push((name, value));
        proof {
            assert(self.pairs@.drop_last() =~= old(self).pairs@);
            assert(self@ =~= old(self)@.insert(gname, gvalue));
        }
    }

    /// Looks the variable `name` up, returning the text it was last bound to.
    pub fn get(&self, name: &str) -> (r: Option<String>)
        ensures
            match r {
                Some(v) => self@.contains_key(name@) && self@[name@] == v@,
                None => !self@.contains_key(name@),
            },
    {
        let n = self.pairs.len();
        let mut found: Option<String> = None;
        let mut i: usize = 0;
        while i < n
            invariant
                i <= n,
                n == self.pairs@.len(),
                match found {
                    Some(v) => map_of(self.pairs@.take(i as int)).contains_key(name@)
                        && map_of(self.pairs@.take(i as int))[name@] == v@,
                    None => !map_of(self.pairs@.take(i as int)).contains_key(name@),
                },
            decreases n - i,
        {
            proof {
                assert(self.pairs@.take(i + 1).drop_last() =~= self.pairs@.take(i as int));
                assert(self.pairs@.take(i + 1).last() == self.pairs@[i as int]);
            }
            if str_eq(self.pairs[i].0.as_str(), name) {
                found = Some(self.pairs[i].1.clone());
            }
            i = i + 1;
        }
        proof {
            assert(self.pairs@.take(n as int) =~= self.pairs@);
        }
        found
    }
}

} // verus!
