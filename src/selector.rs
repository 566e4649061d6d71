//! The selector syntax tree and what it means to match a node.

use vstd::prelude::*;
use crate::text::{chars_of, contains_chars, chars_at, same_chars, occurs_in, starts_with, ends_with};
use crate::tree::{UiTree, lemma_below_before, lemma_below_trans};

verus! {

/// How an attribute clause compares the node's value with its own.
#[derive(Debug, Clone, Copy, PartialEq, Eq, Structural)]
pub enum AttrOp {
    /// `=`
    Equals,
    /// `^=`
    StartsWith,
    /// `$=`
    EndsWith,
    /// `*=`
    Contains,
}

/// One `[attr<op>value]` predicate.
#[derive(Debug, Clone, PartialEq)]
pub struct AttrClause {
    pub attr: String,
    pub op: AttrOp,
    pub value: String,
}

/// A compiled selector: a predicate over the nodes of a tree.
#[derive(Debug, PartialEq)]
pub enum Selector {
    /// Every clause holds.
    And(Vec<AttrClause>),
    /// Some member matches.
    Or(Vec<Selector>),
    /// Some node strictly inside the subtree matches the inner selector.
    Has(Box<Selector>),
    /// The inner selector does not match the same node.
    Not(Box<Selector>),
    /// Clauses, with an optional descendant test and an optional negation.
    Complex { attrs: Vec<AttrClause>, has: Option<Box<Selector>>, not: Option<Box<Selector>> },
    /// The node matches `child` and its parent matches `parent`.
    Child { parent: Box<Selector>, child: Box<Selector> },
    /// The node matches `descendant` and some ancestor matches `ancestor`.
    Descendant { ancestor: Box<Selector>, descendant: Box<Selector> },
}

/// The attribute that a clause's name looks up: known aliases map to the
/// attribute's own name, any other name is looked up as it stands.
pub open spec fn resolve(name: Seq<char>) -> Seq<char> {
    if name == "contentDescription"@ || name == "content-description"@ || name == "content_desc"@ {
        "content-desc"@
    } else if name == "resourceId"@ || name == "resource_id"@ {
        "resource-id"@
    } else if name == "long_clickable"@ {
        "long-clickable"@
    } else {
        name
    }
}

/// Whether `actual` compares to `wanted` as `op` asks.
pub open spec fn op_holds(op: AttrOp, actual: Seq<char>, wanted: Seq<char>) -> bool {
    match op {
        AttrOp::Equals => actual == wanted,
        AttrOp::StartsWith => starts_with(actual, wanted),
        AttrOp::EndsWith => ends_with(actual, wanted),
        AttrOp::Contains => occurs_in(wanted, actual),
    }
}

/// The clause holds on node `i`: the resolved attribute is present and
/// compares as the operator asks.
pub open spec fn clause_holds(t: UiTree, c: AttrClause, i: int) -> bool {
    match t.attr(i, resolve(c.attr@)) {
        Some(v) => op_holds(c.op, v, c.value@),
        None => false,
    }
}

pub open spec fn all_hold(t: UiTree, cs: Seq<AttrClause>, i: int) -> bool {
    forall|k: int| 0 <= k < cs.len() ==> #[trigger] clause_holds(t, cs[k], i)
}

/// Whether selector `s` matches node `i` of `t`. Only elements match.
pub open spec fn selects(t: UiTree, s: Selector, i: int) -> bool
    decreases s,
{
    if !t.is_element(i) {
        false
    } else {
        match s {
            Selector::And(cs) => all_hold(t, cs@, i),
            Selector::Or(v) => exists|k: int| 0 <= k < v@.len() && selects(t, #[trigger] v@[k], i),
            Selector::Has(inner) => exists|j: int| #[trigger] t.is_below(i, j) && selects(t, *inner, j),
            Selector::Not(inner) => !selects(t, *inner, i),
            Selector::Complex { attrs, has, not } => {
                &&& all_hold(t, attrs@, i)
                &&& match has {
                    Some(h) => exists|j: int| #[trigger] t.is_below(i, j) && selects(t, *h, j),
                    None => true,
                }
                &&& match not {
                    Some(n) => !selects(t, *n, i),
                    None => true,
                }
            },
            Selector::Child { parent, child } => {
                &&& selects(t, *child, i)
                &&& match t.parent_of(i) {
                    Some(p) => selects(t, *parent, p as int),
                    None => false,
                }
            },
            Selector::Descendant { ancestor, descendant } => {
                &&& selects(t, *descendant, i)
                &&& exists|a: int| #[trigger] t.is_below(a, i) && selects(t, *ancestor, a)
            },
        }
    }
}

} // verus!

verus! {

/// The attribute name that `name` looks up.
pub fn resolve_name(name: &String) -> (r: String)
    ensures
        r@ == resolve(name@),
{
    let cs = chars_of(name.as_str());
    if same_chars(&cs, "contentDescription") || same_chars(&cs, "content-description")
        || same_chars(&cs, "content_desc") {
        "content-desc".to_owned()
    } else if same_chars(&cs, "resourceId") || same_chars(&cs, "resource_id") {
        "resource-id".to_owned()
    } else if same_chars(&cs, "long_clickable") {
        "long-clickable".to_owned()
    } else {
        name.clone()
    }
}

impl AttrClause {
    /// Whether the clause holds on node `node` of `tree`.
    pub fn matches(&self, tree: &UiTree, node: usize) -> (r: bool)
        requires
            tree.has_node(node as int),
        ensures
            r == clause_holds(*tree, *self, node as int),
    {
        let key = resolve_name(&self.attr);
        match tree.attribute(node, &key) {
            None => false,
            Some(v) => {
                let actual = chars_of(v.as_str());
                let wanted = chars_of(self.value.as_str());
                match self.op {
                    AttrOp::Equals => *v == self.value,
                    AttrOp::StartsWith => wanted.len() <= actual.len() && chars_at(
                        &actual,
                        0,
                        &wanted,
                    ),
                    AttrOp::EndsWith => wanted.len() <= actual.len() && chars_at(
                        &actual,
                        actual.len() - wanted.len(),
                        &wanted,
                    ),
                    AttrOp::Contains => contains_chars(&actual, &wanted),
                }
            },
        }
    }
}

/// Whether every clause holds on node `node`.
fn all_clauses(cs: &Vec<AttrClause>, tree: &UiTree, node: usize) -> (r: bool)
    requires
        tree.has_node(node as int),
    ensures
        r == all_hold(*tree, cs@, node as int),
{
    let mut k: usize = 0;
    while k < cs.len()
        invariant
            tree.has_node(node as int),
            k <= cs@.len(),
            forall|m: int| 0 <= m < k ==> #[trigger] clause_holds(*tree, cs@[m], node as int),
        decreases cs@.len() - k,
    {
        if !cs[k].matches(tree, node) {
            return false;
        }
        k += 1;
    }
    true
}

/// Whether some node strictly inside the subtree of `node` matches `inner`.
fn some_below_matches(inner: &Selector, tree: &UiTree, node: usize) -> (r: bool)
    requires
        tree.wf(),
        tree.has_node(node as int),
    ensures
        r == exists|j: int| #[trigger] tree.is_below(node as int, j) && selects(*tree, *inner, j),
    decreases inner, 1nat,
{
    let n = tree.nodes.len();
    // below[j - node - 1] records whether node j lies inside the subtree.
    let mut below: Vec<bool> = Vec::new();
    let mut j: usize = node + 1;
    while j < n
        invariant
            tree.wf(),
            n == tree.size(),
            node < j <= n,
            below@.len() == j - node - 1,
            forall|m: int| node < m < j ==> below@[m - node - 1] == tree.is_below(node as int, m),
            forall|m: int|
                node < m < j ==> !(#[trigger] tree.is_below(node as int, m) && selects(
                    *tree,
                    *inner,
                    m,
                )),
        decreases n - j,
    {
        let inside = match tree.nodes[j].parent {
            Some(p) => {
                assert(p < j);
                if node < p && p < j {
                    assert(below@[p - node - 1] == tree.is_below(node as int, p as int));
                }
                p == node || (node < p && p < j && below[p - node - 1])
            },
            None => false,
        };
        assert(inside == tree.is_below(node as int, j as int));
        if inside && inner.matches(tree, j) {
            return true;
        }
        below.push(inside);
        j += 1;
    }
    assert forall|m: int| #[trigger] tree.is_below(node as int, m) implies !selects(
        *tree,
        *inner,
        m,
    ) by {
        lemma_below_before(tree, node as int, m);
    }
    false
}

/// Whether some proper ancestor of `node` matches `outer`.
fn some_above_matches(outer: &Selector, tree: &UiTree, node: usize) -> (r: bool)
    requires
        tree.wf(),
        tree.has_node(node as int),
    ensures
        r == exists|a: int| #[trigger] tree.is_below(a, node as int) && selects(*tree, *outer, a),
    decreases outer, 1nat,
{
    let mut cur = node;
    loop
        invariant
            tree.wf(),
            tree.has_node(cur as int),
            cur == node || tree.is_below(cur as int, node as int),
            forall|a: int|
                #[trigger] tree.is_below(a, node as int) && selects(*tree, *outer, a)
                    ==> tree.is_below(a, cur as int),
        decreases cur,
    {
        match tree.nodes[cur].parent {
            None => {
                return false;
            },
            Some(p) => {
                assert(tree.is_below(p as int, cur as int));
                proof {
                    if cur != node {
                        lemma_below_trans(tree, p as int, cur as int, node as int);
                    }
                }
                if outer.matches(tree, p) {
                    return true;
                }
                assert forall|a: int|
                    #[trigger] tree.is_below(a, node as int) && selects(*tree, *outer, a)
                        implies tree.is_below(a, p as int) by {
                    lemma_below_before(tree, a, p as int);
                }
                cur = p;
            },
        }
    }
}

/// Whether some member of `members` matches `node`.
fn some_member_matches(members: &Vec<Selector>, tree: &UiTree, node: usize) -> (r: bool)
    requires
        tree.wf(),
        tree.has_node(node as int),
    ensures
        r == exists|k: int| 0 <= k < members@.len() && selects(*tree, #[trigger] members@[k], node as int),
    decreases members, 1nat,
{
    let mut k: usize = 0;
    while k < members.len()
        invariant
            tree.wf(),
            tree.has_node(node as int),
            k <= members@.len(),
            forall|m: int| 0 <= m < k ==> !selects(*tree, #[trigger] members@[m], node as int),
        decreases members@.len() - k,
    {
        proof {
            vstd::std_specs::vec::axiom_vec_index_decreases(*members, k as int);
        }
        if members[k].matches(tree, node) {
            return true;
        }
        k += 1;
    }
    false
}

impl Selector {
    /// Whether the selector matches node `node` of `tree`.
    pub fn matches(&self, tree: &UiTree, node: usize) -> (r: bool)
        requires
            tree.wf(),
            tree.has_node(node as int),
        ensures
            r == selects(*tree, *self, node as int),
        decreases self, 0nat,
    {
        if !tree.nodes[node].element {
            return false;
        }
        match self {
            Selector::And(clauses) => all_clauses(clauses, tree, node),
            Selector::Or(members) => some_member_matches(members, tree, node),
            Selector::Has(inner) => some_below_matches(inner, tree, node),
            Selector::Not(inner) => !inner.matches(tree, node),
            Selector::Complex { attrs, has, not } => {
                if !all_clauses(attrs, tree, node) {
                    return false;
                }
                let has_ok = match has {
                    Some(h) => some_below_matches(h, tree, node),
                    None => true,
                };
                if !has_ok {
                    return false;
                }
                match not {
                    Some(n) => !n.matches(tree, node),
                    None => true,
                }
            },
            Selector::Child { parent, child } => {
                if !child.matches(tree, node) {
                    return false;
                }
                match tree.nodes[node].parent {
                    Some(p) => parent.matches(tree, p),
                    None => false,
                }
            },
            Selector::Descendant { ancestor, descendant } => {
                if !descendant.matches(tree, node) {
                    return false;
                }
                some_above_matches(ancestor, tree, node)
            },
        }
    }
}

} // verus!
