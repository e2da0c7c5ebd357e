//! The tree model: a recursive tagged union of root, directory and file
//! nodes, where containers own an ordered list of children.

use vstd::prelude::*;

verus! {

/// A node of the file tree. The root behaves like a directory for traversal
/// but carries no name and is never matched by name during lookup.
#[derive(Debug)]
pub enum FsNode {
    Root { entries: Vec<FsNode> },
    Dir { name: String, entries: Vec<FsNode> },
    File { name: String, contents: Vec<u8> },
}

/// The mathematical model of a node: names are character sequences, file
/// contents are byte sequences, child lists are sequences of models.
#[verifier::ext_equal]
pub enum NodeModel {
    Root { entries: Seq<NodeModel> },
    Dir { name: Seq<char>, entries: Seq<NodeModel> },
    File { name: Seq<char>, contents: Seq<u8> },
}

impl FsNode {
    /// The model of a node, computed recursively over its children.
    pub open spec fn model(self) -> NodeModel
        decreases self, 1int,
    {
        match self {
            FsNode::Root { entries } => NodeModel::Root { entries: models_of(entries@) },
            FsNode::Dir { name, entries } => NodeModel::Dir {
                name: name@,
                entries: models_of(entries@),
            },
            FsNode::File { name, contents } => NodeModel::File {
                name: name@,
                contents: contents@,
            },
        }
    }
}

/// The models of a sequence of nodes, in order.
pub open spec fn models_of(es: Seq<FsNode>) -> Seq<NodeModel>
    decreases es, 0int,
{
    if es.len() == 0 {
        Seq::empty()
    } else {
        seq![es[0].model()] + models_of(es.drop_first())
    }
}

/// `models_of` maps each node of a sequence to its model, keeping length
/// and order.
pub proof fn lemma_models_of(es: Seq<FsNode>)
    ensures
        models_of(es).len() == es.len(),
        forall|i: int| 0 <= i < es.len() ==> models_of(es)[i] == #[trigger] es[i].model(),
    decreases es.len(),
{
    if es.len() > 0 {
        lemma_models_of(es.drop_first());
        assert forall|i: int| 0 <= i < es.len() implies models_of(es)[i] == #[trigger] es[i]
            .model() by {
            if i > 0 {
                assert(models_of(es)[i] == models_of(es.drop_first())[i - 1]);
                assert(es.drop_first()[i - 1] == es[i]);
            }
        }
    }
}

impl View for FsNode {
    type V = NodeModel;

    open spec fn view(&self) -> NodeModel {
        self.model()
    }
}

impl NodeModel {
    /// Containers are the node kinds that own children.
    pub open spec fn is_container(self) -> bool {
        !(self is File)
    }

    /// The children of a node; a file has none.
    pub open spec fn entries(self) -> Seq<NodeModel> {
        match self {
            NodeModel::Root { entries } => entries,
            NodeModel::Dir { entries, .. } => entries,
            NodeModel::File { .. } => Seq::empty(),
        }
    }

    /// The name of a node; the root is unnamed.
    pub open spec fn entry_name(self) -> Seq<char> {
        match self {
            NodeModel::Root { .. } => Seq::empty(),
            NodeModel::Dir { name, .. } => name,
            NodeModel::File { name, .. } => name,
        }
    }

    /// The same node with its child list replaced; a file is unchanged.
    pub open spec fn with_entries(self, es: Seq<NodeModel>) -> NodeModel {
        match self {
            NodeModel::Root { .. } => NodeModel::Root { entries: es },
            NodeModel::Dir { name, .. } => NodeModel::Dir { name, entries: es },
            NodeModel::File { .. } => self,
        }
    }
}

/// Creates a fresh tree: a single root with no children.
pub fn create_fs() -> (r: FsNode)
    ensures
        r@ == (NodeModel::Root { entries: Seq::<NodeModel>::empty() }),
{
    let r = FsNode::Root { entries: Vec::new() };
    proof {
        assert(r@.entries() =~= Seq::<NodeModel>::empty());
        assert(r@ =~= NodeModel::Root { entries: Seq::<NodeModel>::empty() });
    }
    r
}

} // verus!
