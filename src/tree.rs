//! A document as an arena of nodes in document order, read from XML.

use vstd::prelude::*;

verus! {

/// One node of a document: an element with its tag and attributes, or
/// another kind of node (the document root, text, a comment).
#[derive(Debug, Clone)]
pub struct TreeNode {
    pub element: bool,
    pub tag: String,
    pub attrs: Vec<(String, String)>,
    /// Index of the parent node, which comes earlier in document order.
    pub parent: Option<usize>,
}

/// A document held as its nodes in document order; a node refers to its
/// parent by index.
#[derive(Debug, Clone)]
pub struct UiTree {
    pub nodes: Vec<TreeNode>,
}

/// A node as plain values.
pub struct NodeView {
    pub element: bool,
    pub tag: Seq<char>,
    pub attrs: Seq<(Seq<char>, Seq<char>)>,
    pub parent: Option<usize>,
}

impl View for TreeNode {
    type V = NodeView;

    open spec fn view(&self) -> NodeView {
        NodeView {
            element: self.element,
            tag: self.tag@,
            attrs: self.attrs@.map_values(|a: (String, String)| (a.0@, a.1@)),
            parent: self.parent,
        }
    }
}

pub open spec fn node_views(nodes: Seq<TreeNode>) -> Seq<NodeView> {
    nodes.map_values(|n: TreeNode| n@)
}

/// Every parent index points to an earlier node.
pub open spec fn views_precede(vs: Seq<NodeView>) -> bool {
    forall|i: int|
        0 <= i < vs.len() ==> match #[trigger] vs[i].parent {
            Some(p) => p < i,
            None => true,
        }
}

/// What reading `xml` as a document gives: its nodes in document order, or
/// the reader's error message.
pub uninterp spec fn xml_nodes(xml: Seq<char>) -> Result<Seq<NodeView>, Seq<char>>;

/// Relies on `roxmltree::Document::parse`: reads `xml` into a document, or
/// fails with an error whose message depends on the text alone. The nodes are
/// copied out as plain values: `Document::descendants` lists every node in
/// document order, starting with the root, and each node's `Node::id` is its
/// place in that list, so a parent's id (from `Node::parent`) indexes the
/// same list; the reader adds a node after its parent, so every parent comes
/// earlier in the list. `Node::is_element`, `Node::tag_name`, and
/// `Node::attributes` give the rest.
#[verifier::external_body]
fn read_document(xml: &str) -> (r: Result<Vec<TreeNode>, String>)
    ensures
        match r {
            Ok(v) => xml_nodes(xml@) == Ok::<Seq<NodeView>, Seq<char>>(node_views(v@))
                && views_precede(node_views(v@)),
            Err(e) => xml_nodes(xml@) == Err::<Seq<NodeView>, Seq<char>>(e@),
        },
{
    match roxmltree::Document::parse(xml) {
        Ok(doc) => Ok(doc.descendants().map(|n| TreeNode {
            element: n.is_element(),
            tag: n.tag_name().name().to_string(),
            attrs: n.attributes().map(|a| (a.name().to_string(), a.value().to_string())).collect(),
            parent: n.parent().map(|p| p.id().get_usize()),
        }).collect()),
        Err(e) => Err(e.to_string()),
    }
}

/// The value of the first attribute named `name`.
pub open spec fn lookup(attrs: Seq<(String, String)>, name: Seq<char>) -> Option<Seq<char>>
    decreases attrs.len(),
{
    if attrs.len() == 0 {
        None
    } else if attrs[0].0@ == name {
        Some(attrs[0].1@)
    } else {
        lookup(attrs.drop_first(), name)
    }
}

/// Every parent index points to an earlier node.
pub open spec fn parents_precede(nodes: Seq<TreeNode>) -> bool {
    forall|i: int|
        0 <= i < nodes.len() ==> match #[trigger] nodes[i].parent {
            Some(p) => p < i,
            None => true,
        }
}

impl UiTree {
    pub open spec fn wf(&self) -> bool {
        parents_precede(self.nodes@)
    }

    pub open spec fn size(&self) -> int {
        self.nodes@.len() as int
    }

    pub open spec fn has_node(&self, i: int) -> bool {
        0 <= i < self.nodes@.len()
    }

    pub open spec fn is_element(&self, i: int) -> bool {
        self.has_node(i) && self.nodes@[i].element
    }

    pub open spec fn parent_of(&self, i: int) -> Option<usize> {
        if self.has_node(i) {
            self.nodes@[i].parent
        } else {
            None
        }
    }

    pub open spec fn attr(&self, i: int, name: Seq<char>) -> Option<Seq<char>> {
        if self.has_node(i) {
            lookup(self.nodes@[i].attrs@, name)
        } else {
            None
        }
    }

    /// Node `j` lies strictly inside the subtree of node `i`: `i` is found by
    /// walking up from `j` through parents.
    pub open spec fn is_below(&self, i: int, j: int) -> bool
        decreases j,
    {
        if self.has_node(j) {
            match self.nodes@[j].parent {
                Some(p) => p < j && (p == i || (i < p && self.is_below(i, p as int))),
                None => false,
            }
        } else {
            false
        }
    }

    /// Node `j` is an element child of `i`.
    pub open spec fn is_element_child(&self, i: int, j: int) -> bool {
        self.is_element(j) && self.parent_of(j) == Some(i as usize) && i >= 0
    }

    /// Builds a tree from nodes in document order; fails unless every parent
    /// index points to an earlier node.
    pub fn from_nodes(nodes: Vec<TreeNode>) -> (r: Option<UiTree>)
        ensures
            r is Some <==> parents_precede(nodes@),
            r matches Some(t) ==> t.nodes@ == nodes@ && t.wf(),
    {
        let mut i: usize = 0;
        while i < nodes.len()
            invariant
                i <= nodes@.len(),
                forall|k: int|
                    0 <= k < i ==> match #[trigger] nodes@[k].parent {
                        Some(p) => p < k,
                        None => true,
                    },
            decreases nodes@.len() - i,
        {
            match nodes[i].parent {
                Some(p) => {
                    if p >= i {
                        return None;
                    }
                },
                None => {},
            }
            i += 1;
        }
        Some(UiTree { nodes })
    }

    /// Reads an XML document. Fails, with the reader's message, exactly when
    /// the text is not well-formed XML.
    pub fn parse(xml: &str) -> (r: Result<UiTree, String>)
        ensures
            match r {
                Ok(t) => t.wf() && xml_nodes(xml@) == Ok::<Seq<NodeView>, Seq<char>>(
                    node_views(t.nodes@),
                ),
                Err(e) => xml_nodes(xml@) == Err::<Seq<NodeView>, Seq<char>>(e@),
            },
    {
        match read_document(xml) {
            Err(e) => Err(e),
            Ok(nodes) => {
                let ghost vs = node_views(nodes@);
                match UiTree::from_nodes(nodes) {
                    Some(t) => Ok(t),
                    None => {
                        proof {
                            let i = choose|i: int|
                                0 <= i < nodes@.len() && !match #[trigger] nodes@[i].parent {
                                    Some(p) => p < i,
                                    None => true,
                                };
                            assert(vs[i].parent == nodes@[i].parent);
                        }
                        // The reader lists every parent before its children.
                        Err("node out of order".to_owned())
                    },
                }
            },
        }
    }

    /// The parent of node `i`, if any.
    pub fn parent(&self, i: usize) -> (r: Option<usize>)
        requires
            self.has_node(i as int),
        ensures
            r == self.parent_of(i as int),
    {
        self.nodes[i].parent
    }

    /// The first element child of node `i` in document order.
    pub fn first_element_child(&self, i: usize) -> (r: Option<usize>)
        ensures
            r matches Some(j) ==> self.is_element_child(i as int, j as int) && forall|k: int|
                0 <= k < j ==> !#[trigger] self.is_element_child(i as int, k),
            r is None ==> forall|k: int| !#[trigger] self.is_element_child(i as int, k),
    {
        let mut j: usize = 0;
        while j < self.nodes.len()
            invariant
                j <= self.nodes@.len(),
                forall|k: int| 0 <= k < j ==> !#[trigger] self.is_element_child(i as int, k),
            decreases self.nodes@.len() - j,
        {
            if self.nodes[j].element && self.nodes[j].parent == Some(i) {
                return Some(j);
            }
            j += 1;
        }
        None
    }

    /// The first element child of the document root (node 0).
    pub fn root_element(&self) -> (r: Option<usize>)
        ensures
            r matches Some(j) ==> self.is_element_child(0, j as int) && forall|k: int|
                0 <= k < j ==> !#[trigger] self.is_element_child(0, k),
            r is None ==> forall|k: int| !#[trigger] self.is_element_child(0, k),
    {
        self.first_element_child(0)
    }

    /// The value of the first attribute of node `i` named `name`.
    pub fn attribute(&self, i: usize, name: &String) -> (r: Option<&String>)
        requires
            self.has_node(i as int),
        ensures
            match r {
                Some(v) => self.attr(i as int, name@) == Some(v@),
                None => self.attr(i as int, name@) is None,
            },
    {
        let attrs = &self.nodes[i].attrs;
        assert(attrs@.subrange(0, attrs@.len() as int) =~= attrs@);
        let mut k: usize = 0;
        while k < attrs.len()
            invariant
                k <= attrs@.len(),
                self.has_node(i as int),
                attrs@ == self.nodes@[i as int].attrs@,
                lookup(attrs@, name@) == lookup(attrs@.subrange(k as int, attrs@.len() as int), name@),
            decreases attrs@.len() - k,
        {
            let ghost rest = attrs@.subrange(k as int, attrs@.len() as int);
            assert(rest.drop_first() =~= attrs@.subrange(k + 1, attrs@.len() as int));
            if attrs[k].0 == *name {
                return Some(&attrs[k].1);
            }
            k += 1;
        }
        None
    }
}

/// Walking up from `j` never reaches a node at or after `j`.
pub proof fn lemma_below_before(t: &UiTree, i: int, j: int)
    requires
        t.is_below(i, j),
    ensures
        i < j,
        t.has_node(j),
    decreases j,
{
    let p = t.nodes@[j].parent.unwrap() as int;
    if p != i {
        lemma_below_before(t, i, p);
    }
}

/// The subtree relation is transitive.
pub proof fn lemma_below_trans(t: &UiTree, a: int, b: int, c: int)
    requires
        t.is_below(a, b),
        t.is_below(b, c),
    ensures
        t.is_below(a, c),
    decreases c,
{
    lemma_below_before(t, a, b);
    lemma_below_before(t, b, c);
    let p = t.nodes@[c].parent.unwrap() as int;
    if p != b {
        lemma_below_trans(t, a, b, p);
    }
}

} // verus!
