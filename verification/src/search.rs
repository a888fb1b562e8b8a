//! Walking the whole tree: pre-order iteration and the searches built on it.

use vstd::prelude::*;
use vstd::string::StringSliceAdditionalSpecFns;
use crate::bytes::same_text;
use crate::node::{DeviceTreeNode, NodeModel};
use crate::value::{PropertyValue, ValueModel};

verus! {

/// Name of the property that lists what a node is compatible with.
pub open spec fn compatible_key() -> Seq<u8> {
    "compatible".spec_bytes()
}

/// The nodes of a forest in depth-first pre-order: each tree in turn, a
/// parent before its children, siblings in definition order.
pub open spec fn forest_preorder(nodes: Seq<NodeModel>) -> Seq<NodeModel>
    decreases nodes,
{
    if nodes.len() == 0 {
        Seq::empty()
    } else {
        nodes[0].preorder() + forest_preorder(nodes.drop_first())
    }
}

/// The nodes still to come from a stack of pending subtrees, the top of
/// the stack, which is its last element, first.
pub open spec fn pending(stack: Seq<NodeModel>) -> Seq<NodeModel>
    decreases stack.len(),
{
    if stack.len() == 0 {
        Seq::empty()
    } else {
        stack.last().preorder() + pending(stack.drop_last())
    }
}

impl NodeModel {
    /// The node and all its descendants in depth-first pre-order.
    pub open spec fn preorder(self) -> Seq<NodeModel>
        decreases self,
    {
        seq![self] + forest_preorder(self.children)
    }

    /// Whether the node has a property called `name`.
    pub open spec fn has(self, name: Seq<u8>) -> bool {
        self.lookup(name) is Some
    }

    /// Whether the node's first `compatible` property is the text
    /// `compatible` or a list that holds it.
    pub open spec fn is_compatible(self, compatible: Seq<u8>) -> bool {
        match self.lookup(compatible_key()) {
            Some(ValueModel::String(text)) => text == compatible,
            Some(ValueModel::StringList(texts)) => texts.contains(compatible),
            _ => false,
        }
    }
}

/// The test for nodes that have a property called `name`.
pub open spec fn having(name: Seq<u8>) -> spec_fn(NodeModel) -> bool {
    |n: NodeModel| n.has(name)
}

/// The test for nodes that are compatible with `compatible`.
pub open spec fn compatible_with(compatible: Seq<u8>) -> spec_fn(NodeModel) -> bool {
    |n: NodeModel| n.is_compatible(compatible)
}

/// The models of a list of node references.
pub open spec fn nodes_view(nodes: Seq<&DeviceTreeNode>) -> Seq<NodeModel> {
    Seq::new(nodes.len(), |i: int| nodes[i]@)
}

/// Depth-first pre-order walk over a tree, by an explicit stack of the
/// subtrees still to visit.
pub struct NodeIterator<'a, 'b> {
    stack: Vec<&'b DeviceTreeNode<'a>>,
}

impl<'a, 'b> NodeIterator<'a, 'b> {
    /// The nodes that the walk has yet to hand out, in order.
    pub closed spec fn remaining(&self) -> Seq<NodeModel> {
        pending(nodes_view(self.stack@))
    }

    /// A walk over `root` and everything below it.
    pub fn new(root: &'b DeviceTreeNode<'a>) -> (walk: Self)
        ensures
            walk.remaining() == root@.preorder(),
    {
        let mut stack: Vec<&'b DeviceTreeNode<'a>> = Vec::new();
        stack.push(root);
        proof {
            let models = nodes_view(stack@);
            assert(models.last() == root@);
            assert(models.drop_last() =~= Seq::<NodeModel>::empty());
            assert(pending(models.drop_last()) =~= Seq::<NodeModel>::empty());
            assert(pending(models) =~= root@.preorder());
        }
        NodeIterator { stack }
    }

    /// Hands out the next node of the walk, or `None` once all are out.
    pub fn next(&mut self) -> (node: Option<&'b DeviceTreeNode<'a>>)
        ensures
            match node {
                Some(n) => old(self).remaining().len() > 0 && n@ == old(self).remaining()[0]
                    && final(self).remaining() == old(self).remaining().drop_first(),
                None => old(self).remaining().len() == 0 && final(self).remaining().len() == 0,
            },
    {
        let node = match self.stack.pop() {
            Some(node) => node,
            None => {
                return None;
            },
        };
        let ghost below = nodes_view(self.stack@);
        proof {
            let before = nodes_view(old(self).stack@);
            assert(before.last() == node@);
            assert(before.drop_last() =~= below);
        }
        let count = node.children.len();
        let mut k: usize = count;
        proof {
            assert(node@.children.subrange(count as int, count as int) =~= Seq::<
                NodeModel,
            >::empty());
            assert(forest_preorder(Seq::<NodeModel>::empty()) + pending(below) =~= pending(below));
        }
        while k > 0
            invariant
                k <= count,
                count == node.children@.len(),
                pending(nodes_view(self.stack@)) == forest_preorder(
                    node@.children.subrange(k as int, count as int),
                ) + pending(below),
            decreases k,
        {
            let ghost before = nodes_view(self.stack@);
            let child = &node.children[k - 1];
            self.stack.push(child);
            proof {
                let after = nodes_view(self.stack@);
                let rest = node@.children.subrange(k as int, count as int);
                let more = node@.children.subrange(k - 1, count as int);
                assert(after.last() == child@);
                assert(after.drop_last() =~= before);
                assert(more[0] == child@);
                assert(more.drop_first() =~= rest);
                assert(pending(after) =~= child@.preorder() + (forest_preorder(rest) + pending(
                    below,
                )));
                assert(forest_preorder(more) =~= child@.preorder() + forest_preorder(rest));
            }
            k -= 1;
        }
        proof {
            assert(node@.children.subrange(0, count as int) =~= node@.children);
            let was = old(self).remaining();
            assert(was =~= (seq![node@] + forest_preorder(node@.children)) + pending(below));
            assert(was.drop_first() =~= forest_preorder(node@.children) + pending(below));
        }
        Some(node)
    }
}

impl<'a> DeviceTreeNode<'a> {
    /// A walk over this node and all its descendants in depth-first
    /// pre-order.
    pub fn iter_nodes<'b>(&'b self) -> (walk: NodeIterator<'a, 'b>)
        ensures
            walk.remaining() == self@.preorder(),
    {
        NodeIterator::new(self)
    }

    /// Whether the first `compatible` property of this node names
    /// `compatible`.
    pub fn matches_compatible(&self, compatible: &str) -> (matches: bool)
        ensures
            matches == self@.is_compatible(compatible.spec_bytes()),
    {
        match self.find_property("compatible") {
            Some(property) => match &property.value {
                PropertyValue::String(text) => same_text(text, compatible),
                PropertyValue::StringList(texts) => {
                    let ghost models = property.value@->StringList_0;
                    let mut i: usize = 0;
                    while i < texts.len()
                        invariant
                            i <= texts.len(),
                            self@.lookup(compatible_key()) == Some(ValueModel::StringList(models)),
                            models.len() == texts@.len(),
                            forall|j: int|
                                0 <= j < texts@.len() ==> models[j] == texts@[j].spec_bytes(),
                            forall|j: int| 0 <= j < i ==> models[j] != compatible.spec_bytes(),
                        decreases texts.len() - i,
                    {
                        if same_text(texts[i], compatible) {
                            assert(models[i as int] == compatible.spec_bytes());
                            return true;
                        }
                        i += 1;
                    }
                    false
                },
                _ => false,
            },
            None => false,
        }
    }

    /// All nodes at or below this one that have a property called
    /// `property_name`, in pre-order.
    pub fn find_nodes_with_property<'b>(&'b self, property_name: &str) -> (nodes: Vec<
        &'b DeviceTreeNode<'a>,
    >)
        ensures
            nodes_view(nodes@) == self@.preorder().filter(having(property_name.spec_bytes())),
    {
        let ghost wanted = having(property_name.spec_bytes());
        let ghost all = self@.preorder();
        let mut nodes: Vec<&'b DeviceTreeNode<'a>> = Vec::new();
        let mut walk = self.iter_nodes();
        let ghost mut seen: Seq<NodeModel> = Seq::empty();
        proof {
            assert(nodes_view(nodes@) =~= seen.filter(wanted));
            assert(seen + walk.remaining() =~= all);
        }
        loop
            invariant
                wanted == having(property_name.spec_bytes()),
                all == self@.preorder(),
                seen + walk.remaining() == all,
                nodes_view(nodes@) == seen.filter(wanted),
            decreases walk.remaining().len(),
        {
            let ghost before = walk.remaining();
            match walk.next() {
                Some(node) => {
                    proof {
                        assert(seen.push(node@) + before.drop_first() =~= seen + before);
                        seen.lemma_filter_push(node@, wanted);
                    }
                    if node.has_property(property_name) {
                        nodes.push(node);
                        assert(nodes_view(nodes@) =~= seen.filter(wanted).push(node@));
                    }
                    proof {
                        seen = seen.push(node@);
                    }
                },
                None => {
                    assert(seen =~= all);
                    return nodes;
                },
            }
        }
    }

    /// All nodes at or below this one whose `compatible` property names
    /// `compatible`, in pre-order.
    pub fn find_compatible_nodes<'b>(&'b self, compatible: &str) -> (nodes: Vec<
        &'b DeviceTreeNode<'a>,
    >)
        ensures
            nodes_view(nodes@) == self@.preorder().filter(
                compatible_with(compatible.spec_bytes()),
            ),
    {
        let ghost wanted = compatible_with(compatible.spec_bytes());
        let ghost all = self@.preorder();
        let mut nodes: Vec<&'b DeviceTreeNode<'a>> = Vec::new();
        let mut walk = self.iter_nodes();
        let ghost mut seen: Seq<NodeModel> = Seq::empty();
        proof {
            assert(nodes_view(nodes@) =~= seen.filter(wanted));
            assert(seen + walk.remaining() =~= all);
        }
        loop
            invariant
                wanted == compatible_with(compatible.spec_bytes()),
                all == self@.preorder(),
                seen + walk.remaining() == all,
                nodes_view(nodes@) == seen.filter(wanted),
            decreases walk.remaining().len(),
        {
            let ghost before = walk.remaining();
            match walk.next() {
                Some(node) => {
                    proof {
                        assert(seen.push(node@) + before.drop_first() =~= seen + before);
                        seen.lemma_filter_push(node@, wanted);
                    }
                    if node.matches_compatible(compatible) {
                        nodes.push(node);
                        assert(nodes_view(nodes@) =~= seen.filter(wanted).push(node@));
                    }
                    proof {
                        seen = seen.push(node@);
                    }
                },
                None => {
                    assert(seen =~= all);
                    return nodes;
                },
            }
        }
    }
}

} // verus!
