//! Laws of the routing trie, proved over the model functions that the
//! contracts of `Tree::insert`, `Tree::search`, `Pretree::store` and
//! `Pretree::query` are stated with.
//!
//! The central notion is [`has_pattern`]: the tree holds a pattern when its
//! tokens, followed by literal child matches alone, end on a terminal node
//! storing it. Inserting a pattern establishes that, holding a pattern makes
//! its own text query successfully, and a held pattern survives every later
//! insertion of a pattern with different tokens.

use vstd::prelude::*;
use crate::path::seg_is_variable;
use crate::path::tokens_of;
use crate::tree::SpecNode;
use crate::tree::find_literal;
use crate::tree::has_pattern;
use crate::tree::lemma_find_literal;
use crate::tree::spec_insert;
use crate::tree::spec_search;

verus! {

/// Inserting never changes which segment a node stands for.
proof fn lemma_insert_keeps_segment(n: SpecNode, toks: Seq<Seq<char>>, i: int, rule: Seq<char>)
    ensures
        spec_insert(n, toks, i, rule).name == n.name,
        spec_insert(n, toks, i, rule).is_variable == n.is_variable,
{
}

/// Children with the same segment names, position by position, give the same
/// literal lookup.
proof fn lemma_find_literal_same_names(s1: Seq<SpecNode>, s2: Seq<SpecNode>, w: Seq<char>)
    requires
        s1.len() == s2.len(),
        forall|k: int| 0 <= k < s1.len() ==> s1[k].name == s2[k].name,
    ensures
        find_literal(s1, w) == find_literal(s2, w),
{
    lemma_find_literal(s1, w);
    lemma_find_literal(s2, w);
    match (find_literal(s1, w), find_literal(s2, w)) {
        (Some(a), Some(b)) => {
            if a < b {
                assert(s2[a].name == w);
                assert(false);
            }
            if b < a {
                assert(s1[b].name == w);
                assert(false);
            }
        },
        (Some(a), None) => {
            assert(s2[a].name == w);
            assert(false);
        },
        (None, Some(b)) => {
            assert(s1[b].name == w);
            assert(false);
        },
        (None, None) => {},
    }
}

/// Appending a child does not change which child is the first of a name that
/// was already present.
proof fn lemma_find_literal_push_keeps_some(s: Seq<SpecNode>, w: Seq<char>, x: SpecNode)
    requires
        find_literal(s, w) is Some,
    ensures
        find_literal(s.push(x), w) == find_literal(s, w),
{
    lemma_find_literal(s, w);
    lemma_find_literal(s.push(x), w);
    let j = find_literal(s, w).unwrap();
    assert(s.push(x)[j] == s[j]);
    match find_literal(s.push(x), w) {
        None => {
            assert(false);
        },
        Some(j2) => {
            if j2 < j {
                assert(s[j2] == s.push(x)[j2]);
                assert(false);
            }
            if j2 > j {
                assert(false);
            }
        },
    }
}

/// When the first child named `w` sits at `j`, replacing that child by one
/// of the same name leaves it the first child named `w`.
proof fn lemma_find_literal_after_update(s: Seq<SpecNode>, w: Seq<char>, j: int, x: SpecNode)
    requires
        find_literal(s, w) == Some(j),
        x.name == w,
    ensures
        find_literal(s.update(j, x), w) == Some(j),
{
    lemma_find_literal(s, w);
    assert forall|k: int| 0 <= k < s.len() implies s[k].name == s.update(j, x)[k].name by {}
    lemma_find_literal_same_names(s, s.update(j, x), w);
}

/// Inserting a pattern makes the tree hold it: its very tokens, followed by
/// literal matches alone, end on a terminal node that stores it.
pub proof fn lemma_insert_establishes_pattern(
    n: SpecNode,
    toks: Seq<Seq<char>>,
    i: int,
    rule: Seq<char>,
)
    ensures
        has_pattern(spec_insert(n, toks, i, rule), toks, i, rule),
    decreases toks.len() - i,
{
    let n1 = spec_insert(n, toks, i, rule);
    if i < toks.len() {
        let w = toks[i];
        match find_literal(n.children, w) {
            Some(j) => {
                lemma_find_literal(n.children, w);
                let child1 = spec_insert(n.children[j], toks, i + 1, rule);
                lemma_insert_keeps_segment(n.children[j], toks, i + 1, rule);
                lemma_find_literal_after_update(n.children, w, j, child1);
                assert(n1.children[j] == child1);
                lemma_insert_establishes_pattern(n.children[j], toks, i + 1, rule);
            },
            None => {
                let start = SpecNode::fresh(w, seg_is_variable(w));
                let child1 = spec_insert(start, toks, i + 1, rule);
                lemma_insert_keeps_segment(start, toks, i + 1, rule);
                lemma_find_literal(n.children, w);
                lemma_find_literal(n.children.push(child1), w);
                match find_literal(n.children.push(child1), w) {
                    None => {
                        assert(n.children.push(child1)[n.children.len() as int].name == w);
                        assert(false);
                    },
                    Some(j2) => {
                        if j2 < n.children.len() {
                            assert(n.children.push(child1)[j2] == n.children[j2]);
                            assert(false);
                        }
                    },
                }
                assert(n1.children[n.children.len() as int] == child1);
                lemma_insert_establishes_pattern(start, toks, i + 1, rule);
            },
        }
    }
}

/// A held pattern is found: searching its tokens ends on a terminal node
/// that stores it, whatever bindings were collected before.
pub proof fn lemma_pattern_is_found(
    n: SpecNode,
    toks: Seq<Seq<char>>,
    i: int,
    rule: Seq<char>,
    vars: Map<Seq<char>, Seq<char>>,
)
    requires
        has_pattern(n, toks, i, rule),
    ensures
        spec_search(n, toks, i, vars).0.is_end,
        spec_search(n, toks, i, vars).0.rule == rule,
    decreases toks.len() - i,
{
    if i < toks.len() {
        let j = find_literal(n.children, toks[i]).unwrap();
        lemma_pattern_is_found(n.children[j], toks, i + 1, rule, vars);
    }
}

/// A held pattern survives the insertion of any pattern whose remaining
/// tokens differ: the literal chain and its terminal node keep the stored
/// pattern.
proof fn lemma_pattern_survives_insert_from(
    n: SpecNode,
    toks1: Seq<Seq<char>>,
    rule1: Seq<char>,
    toks2: Seq<Seq<char>>,
    rule2: Seq<char>,
    i: int,
)
    requires
        0 <= i <= toks1.len(),
        0 <= i <= toks2.len(),
        has_pattern(n, toks1, i, rule1),
        toks1.skip(i) != toks2.skip(i),
    ensures
        has_pattern(spec_insert(n, toks2, i, rule2), toks1, i, rule1),
    decreases toks1.len() - i,
{
    let n1 = spec_insert(n, toks2, i, rule2);
    if i >= toks1.len() {
        if i >= toks2.len() {
            assert(toks1.skip(i) =~= toks2.skip(i));
            assert(false);
        }
        // The insertion continues below this node and leaves its terminal
        // flag and stored pattern alone.
    } else {
        let w1 = toks1[i];
        let j = find_literal(n.children, w1).unwrap();
        lemma_find_literal(n.children, w1);
        if i >= toks2.len() {
            // The insertion ends above this level and leaves the children
            // alone.
        } else {
            let w2 = toks2[i];
            match find_literal(n.children, w2) {
                Some(j2) => {
                    lemma_find_literal(n.children, w2);
                    let c2 = spec_insert(n.children[j2], toks2, i + 1, rule2);
                    lemma_insert_keeps_segment(n.children[j2], toks2, i + 1, rule2);
                    assert forall|k: int|
                        0 <= k < n.children.len() implies n.children[k].name == n.children.update(
                        j2,
                        c2,
                    )[k].name by {}
                    lemma_find_literal_same_names(n.children, n.children.update(j2, c2), w1);
                    if j2 == j {
                        assert(w1 == w2);
                        if toks1.skip(i + 1) == toks2.skip(i + 1) {
                            assert(toks1.skip(i + 1).len() == toks2.skip(i + 1).len());
                            assert(toks1.len() == toks2.len());
                            assert forall|k: int|
                                0 <= k < toks1.skip(i).len() implies toks1.skip(i)[k]
                                == toks2.skip(i)[k] by {
                                if k > 0 {
                                    assert(toks1.skip(i)[k] == toks1.skip(i + 1)[k - 1]);
                                    assert(toks2.skip(i)[k] == toks2.skip(i + 1)[k - 1]);
                                }
                            }
                            assert(toks1.skip(i) =~= toks2.skip(i));
                            assert(false);
                        }
                        lemma_pattern_survives_insert_from(
                            n.children[j],
                            toks1,
                            rule1,
                            toks2,
                            rule2,
                            i + 1,
                        );
                        assert(n1.children[j] == c2);
                    } else {
                        assert(n1.children[j] == n.children[j]);
                    }
                },
                None => {
                    let start = SpecNode::fresh(w2, seg_is_variable(w2));
                    let c2 = spec_insert(start, toks2, i + 1, rule2);
                    lemma_find_literal_push_keeps_some(n.children, w1, c2);
                    assert(n1.children[j] == n.children[j]);
                },
            }
        }
    }
}

/// A held pattern survives the insertion of any different pattern.
pub proof fn lemma_pattern_survives_insert(
    n: SpecNode,
    toks1: Seq<Seq<char>>,
    rule1: Seq<char>,
    toks2: Seq<Seq<char>>,
    rule2: Seq<char>,
)
    requires
        has_pattern(n, toks1, 0, rule1),
        toks1 != toks2,
    ensures
        has_pattern(spec_insert(n, toks2, 0, rule2), toks1, 0, rule1),
{
    assert(toks1.skip(0) =~= toks1);
    assert(toks2.skip(0) =~= toks2);
    lemma_pattern_survives_insert_from(n, toks1, rule1, toks2, rule2, 0);
}

/// After `store`, querying the stored pattern's own text as a path matches
/// and returns that pattern verbatim: the pattern and the path go through the
/// same normalization and splitting.
pub proof fn lemma_store_then_query_finds_pattern(
    n: SpecNode,
    pattern: Seq<char>,
    vars: Map<Seq<char>, Seq<char>>,
)
    ensures
        spec_search(
            spec_insert(n, tokens_of(pattern), 0, pattern),
            tokens_of(pattern),
            0,
            vars,
        ).0.is_end,
        spec_search(
            spec_insert(n, tokens_of(pattern), 0, pattern),
            tokens_of(pattern),
            0,
            vars,
        ).0.rule == pattern,
{
    lemma_insert_establishes_pattern(n, tokens_of(pattern), 0, pattern);
    lemma_pattern_is_found(
        spec_insert(n, tokens_of(pattern), 0, pattern),
        tokens_of(pattern),
        0,
        pattern,
        vars,
    );
}

/// Storing the same pattern twice builds the very same tree, so every later
/// query behaves as after storing it once.
pub proof fn lemma_insert_idempotent(n: SpecNode, toks: Seq<Seq<char>>, i: int, rule: Seq<char>)
    ensures
        spec_insert(spec_insert(n, toks, i, rule), toks, i, rule) == spec_insert(n, toks, i, rule),
    decreases toks.len() - i,
{
    let n1 = spec_insert(n, toks, i, rule);
    let n2 = spec_insert(n1, toks, i, rule);
    if i >= toks.len() {
        assert(n2 =~~= n1);
    } else {
        let w = toks[i];
        match find_literal(n.children, w) {
            Some(j) => {
                lemma_find_literal(n.children, w);
                let child1 = spec_insert(n.children[j], toks, i + 1, rule);
                lemma_insert_keeps_segment(n.children[j], toks, i + 1, rule);
                lemma_find_literal_after_update(n.children, w, j, child1);
                assert(n1.children[j] == child1);
                lemma_insert_idempotent(n.children[j], toks, i + 1, rule);
                assert(n2.children =~= n1.children);
                assert(n2 =~~= n1);
            },
            None => {
                let len = n.children.len() as int;
                let start = SpecNode::fresh(w, seg_is_variable(w));
                let child1 = spec_insert(start, toks, i + 1, rule);
                lemma_insert_keeps_segment(start, toks, i + 1, rule);
                lemma_find_literal(n.children, w);
                lemma_find_literal(n.children.push(child1), w);
                match find_literal(n.children.push(child1), w) {
                    None => {
                        assert(n.children.push(child1)[len].name == w);
                        assert(false);
                    },
                    Some(j2) => {
                        if j2 < len {
                            assert(n.children.push(child1)[j2] == n.children[j2]);
                            assert(false);
                        }
                    },
                }
                assert(n1.children[len] == child1);
                lemma_insert_idempotent(start, toks, i + 1, rule);
                assert(n2.children =~= n1.children);
                assert(n2 =~~= n1);
            },
        }
    }
}

/// Literal over variable: whenever some child carries the token's exact
/// name, the search descends into the first such child and records no
/// binding at this step, whatever variable children there are.
pub proof fn lemma_literal_beats_variable(
    n: SpecNode,
    toks: Seq<Seq<char>>,
    i: int,
    vars: Map<Seq<char>, Seq<char>>,
)
    requires
        0 <= i < toks.len(),
        find_literal(n.children, toks[i]) is Some,
    ensures
        spec_search(n, toks, i, vars) == spec_search(
            n.children[find_literal(n.children, toks[i]).unwrap()],
            toks,
            i + 1,
            vars,
        ),
{
}

/// The first path segment never binds to a variable child: when no child
/// carries its exact name, the search stays in place and skips it, even if
/// variable children exist.
pub proof fn lemma_first_segment_never_binds(
    n: SpecNode,
    toks: Seq<Seq<char>>,
    vars: Map<Seq<char>, Seq<char>>,
)
    requires
        toks.len() > 0,
        find_literal(n.children, toks[0]) is None,
    ensures
        spec_search(n, toks, 0, vars) == spec_search(n, toks, 1, vars),
{
}

} // verus!
