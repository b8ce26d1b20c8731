//! The prefix tree that holds the route patterns of one HTTP method, and the
//! two algorithms on it: inserting a pattern and searching a path.
//!
//! Both algorithms are specified by recursive functions over [`SpecNode`],
//! the mathematical shape of a node: [`spec_insert`] says what tree an
//! insertion produces, [`spec_search`] which node and which variable bindings
//! a search reaches.

use vstd::prelude::*;
use crate::bindings::Bindings;
use crate::path::parse_path;
use crate::path::is_variable;
use crate::path::seg_is_variable;
use crate::path::strip_colons;
use crate::path::tokens_of;

verus! {

/// The mathematical shape of a trie node: every string is a sequence of
/// characters, the children a sequence of shapes.
#[verifier::ext_equal]
pub ghost struct SpecNode {
    /// The pattern stored here, meaningful when `is_end` holds.
    pub rule: Seq<char>,
    /// The segment this node stands for, as registered (normalized).
    pub name: Seq<char>,
    /// The children, in insertion order.
    pub children: Seq<SpecNode>,
    /// Whether some registered pattern ends exactly here.
    pub is_end: bool,
    /// Whether this node stands for a variable segment.
    pub is_variable: bool,
}

impl SpecNode {
    /// A node with no children and nothing stored, as every node starts out.
    pub open spec fn fresh(name: Seq<char>, is_variable: bool) -> SpecNode {
        SpecNode {
            rule: Seq::empty(),
            name: name,
            children: Seq::empty(),
            is_end: false,
            is_variable: is_variable,
        }
    }
}

/// The index of the first child whose segment name equals `w` exactly.
pub open spec fn find_literal(children: Seq<SpecNode>, w: Seq<char>) -> Option<int>
    decreases children.len(),
{
    if children.len() == 0 {
        None
    } else if children[0].name == w {
        Some(0int)
    } else {
        match find_literal(children.skip(1), w) {
            Some(j) => Some(j + 1),
            None => None,
        }
    }
}

/// The index of the first child that stands for a variable segment.
pub open spec fn find_variable(children: Seq<SpecNode>) -> Option<int>
    decreases children.len(),
{
    if children.len() == 0 {
        None
    } else if children[0].is_variable {
        Some(0int)
    } else {
        match find_variable(children.skip(1)) {
            Some(j) => Some(j + 1),
            None => None,
        }
    }
}

/// What `find_literal` returns: the first index whose name is `w`, if any.
pub proof fn lemma_find_literal(children: Seq<SpecNode>, w: Seq<char>)
    ensures
        match find_literal(children, w) {
            Some(j) => 0 <= j < children.len() && children[j].name == w && (forall|k: int|
                0 <= k < j ==> children[k].name != w),
            None => forall|k: int| 0 <= k < children.len() ==> children[k].name != w,
        },
    decreases children.len(),
{
    if children.len() > 0 && children[0].name != w {
        lemma_find_literal(children.skip(1), w);
        match find_literal(children.skip(1), w) {
            Some(j) => {
                assert(children[j + 1] == children.skip(1)[j]);
                assert forall|k: int| 0 <= k < j + 1 implies children[k].name != w by {
                    if k > 0 {
                        assert(children[k] == children.skip(1)[k - 1]);
                    }
                }
            },
            None => {
                assert forall|k: int|
                    0 <= k < children.len() implies children[k].name != w by {
                    if k > 0 {
                        assert(children[k] == children.skip(1)[k - 1]);
                    }
                }
            },
        }
    }
}

/// What `find_variable` returns: the first index marked variable, if any.
pub proof fn lemma_find_variable(children: Seq<SpecNode>)
    ensures
        match find_variable(children) {
            Some(j) => 0 <= j < children.len() && children[j].is_variable && (forall|k: int|
                0 <= k < j ==> !children[k].is_variable),
            None => forall|k: int| 0 <= k < children.len() ==> !children[k].is_variable,
        },
    decreases children.len(),
{
    if children.len() > 0 && !children[0].is_variable {
        lemma_find_variable(children.skip(1));
        match find_variable(children.skip(1)) {
            Some(j) => {
                assert(children[j + 1] == children.skip(1)[j]);
                assert forall|k: int| 0 <= k < j + 1 implies !children[k].is_variable by {
                    if k > 0 {
                        assert(children[k] == children.skip(1)[k - 1]);
                    }
                }
            },
            None => {
                assert forall|k: int|
                    0 <= k < children.len() implies !children[k].is_variable by {
                    if k > 0 {
                        assert(children[k] == children.skip(1)[k - 1]);
                    }
                }
            },
        }
    }
}

/// The tree that inserting the tokens of a pattern from position `i` on
/// produces: existing children are reused by exact segment name, missing ones
/// are appended, and the node the last token reaches becomes terminal and
/// stores the pattern.
pub open spec fn spec_insert(n: SpecNode, toks: Seq<Seq<char>>, i: int, rule: Seq<char>) -> SpecNode
    decreases toks.len() - i,
{
    if i >= toks.len() {
        SpecNode { rule: rule, is_end: true, ..n }
    } else {
        let w = toks[i];
        match find_literal(n.children, w) {
            Some(j) => SpecNode {
                children: n.children.update(j, spec_insert(n.children[j], toks, i + 1, rule)),
                ..n
            },
            None => SpecNode {
                children: n.children.push(
                    spec_insert(SpecNode::fresh(w, seg_is_variable(w)), toks, i + 1, rule),
                ),
                ..n
            },
        }
    }
}

/// The node and the bindings that searching the tokens of a path from
/// position `i` on reaches. At each step a child with the token's exact name
/// wins; otherwise, beyond the first token, the first variable child takes
/// the token as a binding; otherwise the cursor stays in place and the token
/// is skipped.
pub open spec fn spec_search(
    n: SpecNode,
    toks: Seq<Seq<char>>,
    i: int,
    vars: Map<Seq<char>, Seq<char>>,
) -> (SpecNode, Map<Seq<char>, Seq<char>>)
    decreases toks.len() - i,
{
    if i >= toks.len() {
        (n, vars)
    } else {
        let w = toks[i];
        match find_literal(n.children, w) {
            Some(j) => spec_search(n.children[j], toks, i + 1, vars),
            None => if i > 0 {
                match find_variable(n.children) {
                    Some(j) => spec_search(
                        n.children[j],
                        toks,
                        i + 1,
                        vars.insert(strip_colons(n.children[j].name), w),
                    ),
                    None => spec_search(n, toks, i + 1, vars),
                }
            } else {
                spec_search(n, toks, i + 1, vars)
            },
        }
    }
}

/// Whether the tree holds a pattern: following literal child matches for the
/// tokens from position `i` on ends on a terminal node that stores `rule`.
pub open spec fn has_pattern(n: SpecNode, toks: Seq<Seq<char>>, i: int, rule: Seq<char>) -> bool
    decreases toks.len() - i,
{
    if i >= toks.len() {
        n.is_end && n.rule == rule
    } else {
        match find_literal(n.children, toks[i]) {
            Some(j) => has_pattern(n.children[j], toks, i + 1, rule),
            None => false,
        }
    }
}

/// A node of the routing trie. `name` is one path segment as registered
/// (a variable segment keeps its leading `:` after normalization); `rule`
/// is the original pattern, stored when a pattern ends here.
pub struct Tree {
    rule: String,
    name: String,
    nodes: Vec<Tree>,
    is_end: bool,
    is_variable: bool,
}

impl View for Tree {
    type V = SpecNode;

    closed spec fn view(&self) -> SpecNode
        decreases self,
    {
        SpecNode {
            rule: self.rule@,
            name: self.name@,
            children: Seq::new(
                self.nodes@.len(),
                |i: int|
                    if 0 <= i < self.nodes@.len() {
                        self.nodes@[i].view()
                    } else {
                        SpecNode::fresh(Seq::empty(), false)
                    },
            ),
            is_end: self.is_end,
            is_variable: self.is_variable,
        }
    }
}

impl Tree {
    /// A fresh node for a literal segment.
    pub fn new(name: &str) -> (r: Tree)
        ensures
            r@ == SpecNode::fresh(name@, false),
    {
        let r = Tree {
            rule: String::new(),
            name: name.to_owned(),
            nodes: Vec::new(),
            is_end: false,
            is_variable: false,
        };
        proof {
            assert(r@.children =~= Seq::<SpecNode>::empty());
            assert(r@ =~~= SpecNode::fresh(name@, false));
        }
        r
    }

    /// A fresh node for a segment that may stand for a variable.
    pub fn with_variable(name: &str, is_variable: bool) -> (r: Tree)
        ensures
            r@ == SpecNode::fresh(name@, is_variable),
    {
        let r = Tree {
            rule: String::new(),
            name: name.to_owned(),
            nodes: Vec::new(),
            is_end: false,
            is_variable: is_variable,
        };
        proof {
            assert(r@.children =~= Seq::<SpecNode>::empty());
            assert(r@ =~~= SpecNode::fresh(name@, is_variable));
        }
        r
    }

    fn append_child(&mut self, node: Tree)
        ensures
            final(self)@ == (SpecNode { children: old(self)@.children.push(node@), ..old(self)@ }),
    {
        let ghost gnode = node@;
        self.nodes.push(node);
        proof {
            let oldc = old(self)@.children;
            assert forall|i: int|
                0 <= i < self.nodes@.len() implies self@.children[i] == oldc.push(gnode)[i] by {
                if i < oldc.len() {
                    assert(self.nodes@[i] == old(self).nodes@[i]);
                    assert(oldc[i] == old(self).nodes@[i]@);
                }
            }
            assert(self@.children =~= oldc.push(gnode));
            assert(self@ =~~= (SpecNode { children: oldc.push(gnode), ..old(self)@ }));
        }
    }

    /// The children of this node, in insertion order.
    pub fn child(&self) -> (r: &Vec<Tree>)
        ensures
            r@.len() == self@.children.len(),
            forall|i: int| 0 <= i < r@.len() ==> r@[i]@ == self@.children[i],
    {
        &self.nodes
    }

    /// The pattern stored at this node; meaningful when the node is terminal.
    pub fn rule(&self) -> (r: &str)
        ensures
            r@ == self@.rule,
    {
        self.rule.as_str()
    }

    /// The segment name of this node.
    pub fn name(&self) -> (r: &str)
        ensures
            r@ == self@.name,
    {
        self.name.as_str()
    }

    /// The variable name of this node: its segment name with the leading
    /// colons stripped.
    pub fn var_name(&self) -> (r: String)
        ensures
            r@ == strip_colons(self@.name),
    {
        let s = self.name.as_str();
        let n = s.unicode_len();
        let mut i: usize = 0;
        while i < n && s.get_char(i) == ':'
            invariant
                i <= n,
                n == s@.len(),
                forall|k: int| 0 <= k < i ==> s@[k] == ':',
            decreases n - i,
        {
            i = i + 1;
        }
        let r = s.substring_char(i, n).to_owned();
        proof {
            lemma_strip_colons_skip(s@, i as int);
            assert(s@.subrange(i as int, n as int) =~= s@.skip(i as int));
        }
        r
    }
}

impl Tree {
    /// The first child whose segment name equals `w` exactly.
    fn find_child_literal(&self, w: &String) -> (r: Option<usize>)
        ensures
            match r {
                Some(j) => j < self@.children.len() && find_literal(self@.children, w@) == Some(
                    j as int,
                ),
                None => find_literal(self@.children, w@) is None,
            },
            self@.children.len() == self.nodes@.len(),
    {
        let n = self.nodes.len();
        let mut i: usize = 0;
        while i < n
            invariant
                i <= n,
                n == self.nodes@.len(),
                forall|k: int| 0 <= k < i ==> self@.children[k].name != w@,
            decreases n - i,
        {
            let nd = &self.nodes[i];
            proof {
                assert(self@.children[i as int] == nd@);
            }
            if nd.name == *w {
                proof {
                    lemma_find_literal(self@.children, w@);
                }
                return Some(i);
            }
            i = i + 1;
        }
        proof {
            lemma_find_literal(self@.children, w@);
        }
        None
    }

    /// The first child that stands for a variable segment.
    fn find_child_variable(&self) -> (r: Option<usize>)
        ensures
            match r {
                Some(j) => j < self@.children.len() && find_variable(self@.children) == Some(
                    j as int,
                ),
                None => find_variable(self@.children) is None,
            },
            self@.children.len() == self.nodes@.len(),
    {
        let n = self.nodes.len();
        let mut i: usize = 0;
        while i < n
            invariant
                i <= n,
                n == self.nodes@.len(),
                forall|k: int| 0 <= k < i ==> !self@.children[k].is_variable,
            decreases n - i,
        {
            let nd = &self.nodes[i];
            proof {
                assert(self@.children[i as int] == nd@);
            }
            if nd.is_variable {
                proof {
                    lemma_find_variable(self@.children);
                }
                return Some(i);
            }
            i = i + 1;
        }
        proof {
            lemma_find_variable(self@.children);
        }
        None
    }

    /// Creates or reuses the chain of children for the pattern's segments
    /// from position `i` on, then marks the node the last segment reaches
    /// terminal and stores the pattern there.
    fn insert_from(&mut self, toks: &Vec<String>, i: usize, url_rule: &str)
        requires
            i <= toks@.len(),
        ensures
            final(self)@ == spec_insert(old(self)@, toks.deep_view(), i as int, url_rule@),
        decreases toks@.len() - i,
    {
        if i == toks.len() {
            self.rule = url_rule.to_owned();
            self.is_end = true;
            proof {
                assert forall|k: int|
                    0 <= k < self.nodes@.len() implies self@.children[k] == old(
                    self,
                )@.children[k] by {
                    assert(self.nodes@[k] == old(self).nodes@[k]);
                }
                assert(self@.children =~= old(self)@.children);
                assert(self@ =~~= spec_insert(old(self)@, toks.deep_view(), i as int, url_rule@));
            }
        } else {
            let w = &toks[i];
            proof {
                assert(toks.deep_view()[i as int] == w@);
            }
            match self.find_child_literal(w) {
                Some(j) => {
                    let mut child = self.nodes.remove(j);
                    proof {
                        assert(old(self)@.children[j as int] == child@);
                    }
                    child.insert_from(toks, i + 1, url_rule);
                    let ghost gchild = child@;
                    self.nodes.insert(j, child);
                    proof {
                        assert forall|k: int|
                            0 <= k < self.nodes@.len() implies self@.children[k] == old(
                            self,
                        )@.children.update(j as int, gchild)[k] by {
                            if k < j {
                                assert(self.nodes@[k] == old(self).nodes@[k]);
                            } else if k > j {
                                assert(self.nodes@[k] == old(self).nodes@[k]);
                            } else {
                                assert(self.nodes@[k]@ == gchild);
                            }
                        }
                        assert(self@.children =~= old(self)@.children.update(j as int, gchild));
                        assert(self@ =~~= spec_insert(
                            old(self)@,
                            toks.deep_view(),
                            i as int,
                            url_rule@,
                        ));
                    }
                },
                None => {
                    let mut node = Tree::with_variable(w.as_str(), is_variable(w.as_str()));
                    node.insert_from(toks, i + 1, url_rule);
                    self.append_child(node);
                    proof {
                        assert(self@ =~~= spec_insert(
                            old(self)@,
                            toks.deep_view(),
                            i as int,
                            url_rule@,
                        ));
                    }
                },
            }
        }
    }

    /// Inserts a pattern: the chain of its segments is created or reused and
    /// the node its last segment reaches becomes terminal, storing the
    /// pattern as given (not normalized).
    pub fn insert(&mut self, url_rule: &str)
        ensures
            final(self)@ == spec_insert(old(self)@, tokens_of(url_rule@), 0, url_rule@),
    {
        let toks = parse_path(url_rule);
        self.insert_from(&toks, 0, url_rule);
    }

    /// Resolves the path's segments from position `i` on, recording variable
    /// bindings in `vars`, and returns whether the node finally reached is
    /// terminal, together with its stored pattern.
    fn search_from(&self, toks: &Vec<String>, i: usize, vars: &mut Bindings) -> (r: (bool, String))
        requires
            i <= toks@.len(),
        ensures
            r.0 == spec_search(self@, toks.deep_view(), i as int, old(vars)@).0.is_end,
            r.1@ == spec_search(self@, toks.deep_view(), i as int, old(vars)@).0.rule,
            final(vars)@ == spec_search(self@, toks.deep_view(), i as int, old(vars)@).1,
        decreases toks@.len() - i,
    {
        if i == toks.len() {
            (self.is_end, self.rule.clone())
        } else {
            let w = &toks[i];
            proof {
                assert(toks.deep_view()[i as int] == w@);
            }
            match self.find_child_literal(w) {
                Some(j) => {
                    let child = &self.nodes[j];
                    proof {
                        assert(self@.children[j as int] == child@);
                    }
                    child.search_from(toks, i + 1, vars)
                },
                None => {
                    if i > 0 {
                        match self.find_child_variable() {
                            Some(j) => {
                                let child = &self.nodes[j];
                                proof {
                                    assert(self@.children[j as int] == child@);
                                }
                                vars.insert(child.var_name(), w.clone());
                                child.search_from(toks, i + 1, vars)
                            },
                            None => self.search_from(toks, i + 1, vars),
                        }
                    } else {
                        self.search_from(toks, i + 1, vars)
                    }
                },
            }
        }
    }

    /// Resolves a path: returns whether a registered pattern matches, the
    /// stored pattern of the node the search ends on, and the variable
    /// bindings collected on the way.
    pub fn search(&self, url_path: &str) -> (r: (bool, String, Bindings))
        ensures
            r.0 == spec_search(self@, tokens_of(url_path@), 0, Map::empty()).0.is_end,
            r.1@ == spec_search(self@, tokens_of(url_path@), 0, Map::empty()).0.rule,
            r.2@ == spec_search(self@, tokens_of(url_path@), 0, Map::empty()).1,
    {
        let toks = parse_path(url_path);
        let mut vars = Bindings::new();
        let (is_end, rule) = self.search_from(&toks, 0, &mut vars);
        (is_end, rule, vars)
    }
}

/// When the first `i` characters are colons and the next one, if any, is not,
/// stripping the leading colons leaves exactly the tail from `i` on.
proof fn lemma_strip_colons_skip(s: Seq<char>, i: int)
    requires
        0 <= i <= s.len(),
        forall|k: int| 0 <= k < i ==> s[k] == ':',
        i < s.len() ==> s[i] != ':',
    ensures
        strip_colons(s) == s.skip(i),
    decreases i,
{
    if i == 0 {
        assert(s.skip(0) =~= s);
    } else {
        lemma_strip_colons_skip(s.skip(1), i - 1);
        assert(s.skip(1).skip(i - 1) =~= s.skip(i));
    }
}

} // verus!
