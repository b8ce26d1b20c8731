//! The route table: one prefix tree per HTTP method, with the two public
//! operations `store` (register a pattern) and `query` (resolve a path).
//!
//! The method set is fixed and closed; a method token outside it is reported
//! as [`RouteError::UnknownMethod`], never a panic.

use vstd::prelude::*;
use crate::bindings::Bindings;
use crate::path::str_eq;
use crate::path::tokens_of;
use crate::tree::SpecNode;
use crate::tree::Tree;
use crate::tree::spec_insert;
use crate::tree::spec_search;

verus! {

/// The error a route table operation can report.
#[derive(Clone, Copy, Debug, PartialEq, Eq, Structural)]
pub enum RouteError {
    /// The method token is not one of the nine recognized HTTP methods.
    UnknownMethod,
}

/// The position a method's tree is kept at, or `None` for an unrecognized
/// method token. The nine recognized tokens are fixed and case-sensitive.
pub open spec fn method_index(m: Seq<char>) -> Option<int> {
    if m == "GET"@ {
        Some(0int)
    } else if m == "HEAD"@ {
        Some(1int)
    } else if m == "POST"@ {
        Some(2int)
    } else if m == "PUT"@ {
        Some(3int)
    } else if m == "PATCH"@ {
        Some(4int)
    } else if m == "DELETE"@ {
        Some(5int)
    } else if m == "CONNECT"@ {
        Some(6int)
    } else if m == "OPTIONS"@ {
        Some(7int)
    } else if m == "TRACE"@ {
        Some(8int)
    } else {
        None
    }
}

/// Whether `m` is one of the nine recognized HTTP method tokens.
pub open spec fn is_method(m: Seq<char>) -> bool {
    method_index(m) is Some
}

/// Maps a method token to the position of its tree.
fn find_method(method: &str) -> (r: Option<usize>)
    ensures
        match r {
            Some(j) => method_index(method@) == Some(j as int) && j < 9,
            None => method_index(method@) is None,
        },
{
    if str_eq(method, "GET") {
        Some(0)
    } else if str_eq(method, "HEAD") {
        Some(1)
    } else if str_eq(method, "POST") {
        Some(2)
    } else if str_eq(method, "PUT") {
        Some(3)
    } else if str_eq(method, "PATCH") {
        Some(4)
    } else if str_eq(method, "DELETE") {
        Some(5)
    } else if str_eq(method, "CONNECT") {
        Some(6)
    } else if str_eq(method, "OPTIONS") {
        Some(7)
    } else if str_eq(method, "TRACE") {
        Some(8)
    } else {
        None
    }
}

/// The route table: one prefix tree per recognized HTTP method, created once
/// and grown only by `store`.
pub struct Pretree {
    trees: Vec<Tree>,
}

impl Pretree {
    /// Well-formedness: one tree per recognized method. `new` establishes it
    /// and every operation preserves it.
    pub closed spec fn wf(&self) -> bool {
        self.trees@.len() == 9
    }

    /// The tree registered for method `m`; meaningful when `is_method(m)`.
    pub closed spec fn route_tree(&self, m: Seq<char>) -> SpecNode {
        self.trees@[method_index(m).unwrap()]@
    }

    /// A table with one empty root per recognized method and no patterns
    /// registered.
    pub fn new() -> (r: Pretree)
        ensures
            r.wf(),
            forall|m: Seq<char>| is_method(m) ==> #[trigger] r.route_tree(m) == SpecNode::fresh(
                m,
                false,
            ),
    {
        let mut trees: Vec<Tree> = Vec::new();
        trees.push(Tree::new("GET"));
        trees.push(Tree::new("HEAD"));
        trees.push(Tree::new("POST"));
        trees.push(Tree::new("PUT"));
        trees.push(Tree::new("PATCH"));
        trees.push(Tree::new("DELETE"));
        trees.push(Tree::new("CONNECT"));
        trees.push(Tree::new("OPTIONS"));
        trees.push(Tree::new("TRACE"));
        let r = Pretree { trees };
        proof {
            assert forall|m: Seq<char>| is_method(m) implies #[trigger] r.route_tree(m)
                == SpecNode::fresh(m, false) by {
                let j = method_index(m).unwrap();
                assert(r.trees@[j]@ == SpecNode::fresh(m, false));
            }
        }
        r
    }

    /// Registers `url_rule` under `method`: the method's tree is extended as
    /// [`spec_insert`] says, every other method's tree is left alone. Fails
    /// exactly on an unrecognized method token, and then changes nothing.
    pub fn store(&mut self, method: &str, url_rule: &str) -> (r: Result<(), RouteError>)
        requires
            old(self).wf(),
        ensures
            final(self).wf(),
            r is Ok <==> is_method(method@),
            r is Ok ==> final(self).route_tree(method@) == spec_insert(
                old(self).route_tree(method@),
                tokens_of(url_rule@),
                0,
                url_rule@,
            ),
            r is Ok ==> forall|m2: Seq<char>|
                is_method(m2) && m2 != method@ ==> #[trigger] final(self).route_tree(m2) == old(
                    self,
                ).route_tree(m2),
            r is Err ==> r == Result::<(), RouteError>::Err(RouteError::UnknownMethod),
            r is Err ==> *final(self) == *old(self),
    {
        match find_method(method) {
            Some(j) => {
                let mut t = self.trees.remove(j);
                t.insert(url_rule);
                self.trees.insert(j, t);
                proof {
                    assert forall|m2: Seq<char>|
                        is_method(m2) && m2 != method@ implies #[trigger] self.route_tree(m2)
                        == old(self).route_tree(m2) by {
                        let k = method_index(m2).unwrap();
                        assert(self.trees@[k] == old(self).trees@[k]);
                    }
                }
                Ok(())
            },
            None => Err(RouteError::UnknownMethod),
        }
    }

    /// Resolves `url_path` under `method`: returns whether a pattern matched,
    /// the matched pattern (empty on no match), and the variable bindings
    /// collected, all as [`spec_search`] on the method's tree says. Fails
    /// exactly on an unrecognized method token.
    pub fn query(&self, method: &str, url_path: &str) -> (r: Result<
        (bool, String, Bindings),
        RouteError,
    >)
        requires
            self.wf(),
        ensures
            r is Ok <==> is_method(method@),
            r is Err ==> r == Result::<(bool, String, Bindings), RouteError>::Err(
                RouteError::UnknownMethod,
            ),
            r matches Ok(q) ==> {
                let found = spec_search(
                    self.route_tree(method@),
                    tokens_of(url_path@),
                    0,
                    Map::empty(),
                );
                &&& q.0 == found.0.is_end
                &&& (found.0.is_end ==> q.1@ == found.0.rule)
                &&& (!found.0.is_end ==> q.1@ == Seq::<char>::empty())
                &&& q.2@ == found.1
            },
    {
        match find_method(method) {
            Some(j) => {
                let t = &self.trees[j];
                let (is_exist, rule, vars) = t.search(url_path);
                if is_exist {
                    Ok((true, rule, vars))
                } else {
                    Ok((false, String::new(), vars))
                }
            },
            None => Err(RouteError::UnknownMethod),
        }
    }
}

} // verus!
