//! Depth-first textual rendering of a tree: one entry per line,
//! directories suffixed `/`, nesting shown by a two-character indent
//! prefix per depth level.

use vstd::prelude::*;
use vstd::string::StrSliceExecFns;
use vstd::string::StringExecFns;
use crate::tree::FsNode;
use crate::tree::NodeModel;
use crate::tree::lemma_models_of;
use crate::tree::models_of;

verus! {

/// The rendering of a node under a given indent: the root renders only
/// its children; a directory renders its own line and then its children
/// under a deepened indent; a file renders its own line.
pub open spec fn render_node(n: NodeModel, ind: Seq<char>) -> Seq<char>
    decreases n, 1int, 0int,
{
    match n {
        NodeModel::Root { entries } => render_upto(entries, entries.len() as int, ind),
        NodeModel::Dir { name, entries } => ind + name + seq!['/', '\n'] + render_upto(
            entries,
            entries.len() as int,
            ind + seq!['|', ' '],
        ),
        NodeModel::File { name, .. } => ind + name + seq!['\n'],
    }
}

/// The concatenated renderings of the first `k` nodes of a child list, in
/// order.
pub open spec fn render_upto(es: Seq<NodeModel>, k: int, ind: Seq<char>) -> Seq<char>
    decreases es, 0int, k,
{
    if k <= 0 || k > es.len() {
        Seq::empty()
    } else {
        render_upto(es, k - 1, ind) + render_node(es[k - 1], ind)
    }
}

/// Renders the subtree at `fs`, each line prefixed by `indent`.
#[verifier::loop_isolation(false)]
pub fn render(fs: &FsNode, indent: &str) -> (out: String)
    ensures
        out@ == render_node(fs@, indent@),
    decreases *fs,
{
    match fs {
        FsNode::Root { entries } => {
            let ghost es = models_of(entries@);
            let mut out = String::new();
            let mut j: usize = 0;
            while j < entries.len()
                invariant
                    j <= entries@.len(),
                    es == models_of(entries@),
                    out@ == render_upto(es, j as int, indent@),
                decreases entries@.len() - j,
            {
                proof {
                    lemma_models_of(entries@);
                    assert(*entries == fs->Root_entries);
                    assert(decreases_to!(*fs => fs->Root_entries));
                    assert(decreases_to!(fs->Root_entries => fs->Root_entries@));
                    assert(decreases_to!(fs->Root_entries@ => fs->Root_entries@[j as int]));
                    assert(decreases_to!(*fs => entries@[j as int]));
                }
                let piece = render(&entries[j], indent);
                out.append(piece.as_str());
                j += 1;
            }
            proof {
                lemma_models_of(entries@);
                assert(fs@ == (NodeModel::Root { entries: es }));
            }
            out
        },
        FsNode::Dir { name, entries } => {
            let ghost es = models_of(entries@);
            let mut out = indent.to_owned();
            out.append(name.as_str());
            out.append("/\n");
            let mut child_indent = indent.to_owned();
            child_indent.append("| ");
            proof {
                reveal_strlit("/\n");
                reveal_strlit("| ");
                assert(("/\n")@ =~= seq!['/', '\n']);
                assert(("| ")@ =~= seq!['|', ' ']);
                assert(child_indent@ == indent@ + seq!['|', ' ']);
            }
            let ghost head = out@;
            let mut j: usize = 0;
            while j < entries.len()
                invariant
                    j <= entries@.len(),
                    es == models_of(entries@),
                    child_indent@ == indent@ + seq!['|', ' '],
                    out@ == head + render_upto(es, j as int, child_indent@),
                decreases entries@.len() - j,
            {
                proof {
                    lemma_models_of(entries@);
                    assert(*entries == fs->Dir_entries);
                    assert(decreases_to!(*fs => fs->Dir_entries));
                    assert(decreases_to!(fs->Dir_entries => fs->Dir_entries@));
                    assert(decreases_to!(fs->Dir_entries@ => fs->Dir_entries@[j as int]));
                    assert(decreases_to!(*fs => entries@[j as int]));
                }
                let piece = render(&entries[j], child_indent.as_str());
                out.append(piece.as_str());
                j += 1;
            }
            proof {
                lemma_models_of(entries@);
                assert(fs@ == (NodeModel::Dir { name: name@, entries: es }));
                assert(out@ =~= render_node(fs@, indent@));
            }
            out
        },
        FsNode::File { name, .. } => {
            let mut out = indent.to_owned();
            out.append(name.as_str());
            out.append("\n");
            proof {
                reveal_strlit("\n");
                assert(("\n")@ =~= seq!['\n']);
            }
            out
        },
    }
}

} // verus!
