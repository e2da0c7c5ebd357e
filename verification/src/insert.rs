//! The insertion engine: given a validated, already split path, descends
//! the tree and places a new directory or file at the addressed depth.
//!
//! Directory creation extends the tree through missing segments; file
//! creation requires every intermediate directory to exist already. Both
//! fail when a segment that must be descended through names a file, and
//! every failure leaves the tree unchanged.

use vstd::prelude::*;
use vstd::pervasive::VecAdditionalExecFns;
use vstd::slice::slice_to_vec;
use crate::errors::ErrorModel;
use crate::errors::FsError;
use crate::errors::outcome_model;
use crate::name_check::is_valid_name;
use crate::name_check::valid_name;
use crate::path_check::is_valid_path;
use crate::path_check::valid_path;
use crate::segments::split_path;
use crate::segments::split_segments;
use crate::tree::FsNode;
use crate::tree::NodeModel;
use crate::tree::lemma_models_of;
use crate::tree::models_of;

verus! {

/// The lookup rule for descent: `n` is a directory named `name`. The root
/// and files are never matched by name.
pub open spec fn dir_named(n: NodeModel, name: Seq<char>) -> bool {
    n is Dir && n.entry_name() == name
}

/// Index of the first directory child named `name`, or `es.len()` when
/// there is none.
pub open spec fn first_dir_named(es: Seq<NodeModel>, name: Seq<char>) -> int
    decreases es.len(),
{
    if es.len() == 0 {
        0
    } else if dir_named(es[0], name) {
        0
    } else {
        1 + first_dir_named(es.drop_first(), name)
    }
}

/// Whether some child is a file named `name`.
pub open spec fn has_file_named(es: Seq<NodeModel>, name: Seq<char>) -> bool {
    exists|k: int| 0 <= k < es.len() && (#[trigger] es[k]) is File && es[k].entry_name() == name
}

/// `first_dir_named` is in bounds, lands on a matching child when one
/// exists, and nothing before it matches.
pub proof fn lemma_first_dir_named(es: Seq<NodeModel>, name: Seq<char>)
    ensures
        0 <= first_dir_named(es, name) <= es.len(),
        first_dir_named(es, name) < es.len() ==> dir_named(es[first_dir_named(es, name)], name),
        forall|j: int| 0 <= j < first_dir_named(es, name) ==> !dir_named(es[j], name),
    decreases es.len(),
{
    if es.len() > 0 && !dir_named(es[0], name) {
        lemma_first_dir_named(es.drop_first(), name);
        assert forall|j: int| 0 <= j < first_dir_named(es, name) implies !dir_named(
            es[j],
            name,
        ) by {
            if j > 0 {
                assert(!dir_named(es.drop_first()[j - 1], name));
            }
        }
    }
}

/// A position with no match before it, and a match at it or the list's
/// end, is exactly `first_dir_named`.
pub proof fn lemma_first_dir_named_unique(es: Seq<NodeModel>, name: Seq<char>, i: int)
    requires
        0 <= i <= es.len(),
        forall|j: int| 0 <= j < i ==> !dir_named(#[trigger] es[j], name),
        i < es.len() ==> dir_named(es[i], name),
    ensures
        first_dir_named(es, name) == i,
    decreases es.len(),
{
    if es.len() == 0 {
    } else if dir_named(es[0], name) {
        assert(i == 0);
    } else {
        assert(i >= 1);
        lemma_first_dir_named_unique(es.drop_first(), name, i - 1);
    }
}

/// What directory creation does to a container's child list for a
/// non-empty run of segments: descend into the first directory child named
/// like the head segment, or fail when more segments remain and a file
/// child bears that name, or append a fresh empty directory and descend
/// into it.
pub open spec fn dir_insert_entries_m(es: Seq<NodeModel>, segs: Seq<Seq<char>>) -> (Seq<
    NodeModel,
>, Result<(), ErrorModel>)
    decreases segs.len(), 0int,
{
    if segs.len() == 0 {
        (es, Ok(()))
    } else {
        let name = segs[0];
        let k = first_dir_named(es, name);
        if 0 <= k < es.len() {
            let (c, r) = dir_insert(es[k], segs.drop_first());
            (es.update(k, c), r)
        } else if segs.len() > 1 && has_file_named(es, name) {
            (es, Err(ErrorModel::TargetIsFile))
        } else {
            let (c, r) = dir_insert(
                NodeModel::Dir { name, entries: Seq::empty() },
                segs.drop_first(),
            );
            (es.push(c), r)
        }
    }
}

/// What directory creation does to a node: nothing for no segments, a
/// failure on a file, and the child-list step on a container.
pub open spec fn dir_insert(n: NodeModel, segs: Seq<Seq<char>>) -> (NodeModel, Result<
    (),
    ErrorModel,
>)
    decreases segs.len(), 1int,
{
    if segs.len() == 0 {
        (n, Ok(()))
    } else if !n.is_container() {
        (n, Err(ErrorModel::TargetIsFile))
    } else {
        let (es, r) = dir_insert_entries_m(n.entries(), segs);
        (n.with_entries(es), r)
    }
}

/// What file creation does to a container's child list for a non-empty
/// run of segments: on the last segment append the new file; otherwise
/// descend into the first directory child named like the head segment,
/// failing on a file child of that name or on a missing directory.
pub open spec fn file_insert_entries_m(
    es: Seq<NodeModel>,
    segs: Seq<Seq<char>>,
    data: Seq<u8>,
) -> (Seq<NodeModel>, Result<(), ErrorModel>)
    decreases segs.len(), 0int,
{
    if segs.len() == 0 {
        (es, Ok(()))
    } else if segs.len() == 1 {
        (es.push(NodeModel::File { name: segs[0], contents: data }), Ok(()))
    } else {
        let name = segs[0];
        let k = first_dir_named(es, name);
        if 0 <= k < es.len() {
            let (c, r) = file_insert(es[k], segs.drop_first(), data);
            (es.update(k, c), r)
        } else if has_file_named(es, name) {
            (es, Err(ErrorModel::TargetIsFile))
        } else {
            (es, Err(ErrorModel::MissingDirectory(name)))
        }
    }
}

/// What file creation does to a node: nothing for no segments, a failure
/// on a file, and the child-list step on a container.
pub open spec fn file_insert(n: NodeModel, segs: Seq<Seq<char>>, data: Seq<u8>) -> (NodeModel, Result<
    (),
    ErrorModel,
>)
    decreases segs.len(), 1int,
{
    if segs.len() == 0 {
        (n, Ok(()))
    } else if !n.is_container() {
        (n, Err(ErrorModel::TargetIsFile))
    } else {
        let (es, r) = file_insert_entries_m(n.entries(), segs, data);
        (n.with_entries(es), r)
    }
}

/// Insertion never changes a node's kind or name.
pub proof fn lemma_dir_insert_shell(n: NodeModel, segs: Seq<Seq<char>>)
    ensures
        dir_insert(n, segs).0 is Dir <==> n is Dir,
        dir_insert(n, segs).0 is Root <==> n is Root,
        dir_insert(n, segs).0 is File <==> n is File,
        dir_insert(n, segs).0.entry_name() == n.entry_name(),
{
}

/// Directory creation into a fresh empty directory always succeeds: there
/// is nothing on the way to collide with.
pub proof fn lemma_dir_insert_fresh_ok(name: Seq<char>, segs: Seq<Seq<char>>)
    ensures
        dir_insert(NodeModel::Dir { name, entries: Seq::empty() }, segs).1 == Ok::<
            (),
            ErrorModel,
        >(()),
    decreases segs.len(),
{
    let n = NodeModel::Dir { name, entries: Seq::empty() };
    if segs.len() > 0 {
        let es = n.entries();
        lemma_first_dir_named(es, segs[0]);
        assert(!has_file_named(es, segs[0]));
        lemma_dir_insert_fresh_ok(segs[0], segs.drop_first());
    }
}

/// A directory creation that fails leaves the tree unchanged.
pub proof fn lemma_dir_insert_err_unchanged(n: NodeModel, segs: Seq<Seq<char>>)
    ensures
        dir_insert(n, segs).1 is Err ==> dir_insert(n, segs).0 == n,
    decreases segs.len(),
{
    if segs.len() == 0 || n is File {
    } else {
        let es = n.entries();
        let name = segs[0];
        let k = first_dir_named(es, name);
        if 0 <= k < es.len() {
            lemma_dir_insert_err_unchanged(es[k], segs.drop_first());
            if dir_insert(n, segs).1 is Err {
                assert(es.update(k, es[k]) =~= es);
                assert(n.with_entries(es) == n);
            }
        } else if segs.len() > 1 && has_file_named(es, name) {
            assert(n.with_entries(es) == n);
        } else {
            lemma_dir_insert_fresh_ok(name, segs.drop_first());
        }
    }
}

/// A file creation that fails leaves the tree unchanged.
pub proof fn lemma_file_insert_err_unchanged(n: NodeModel, segs: Seq<Seq<char>>, data: Seq<u8>)
    ensures
        file_insert(n, segs, data).1 is Err ==> file_insert(n, segs, data).0 == n,
    decreases segs.len(),
{
    if segs.len() == 0 || segs.len() == 1 || n is File {
    } else {
        let es = n.entries();
        let name = segs[0];
        let k = first_dir_named(es, name);
        if 0 <= k < es.len() {
            lemma_file_insert_err_unchanged(es[k], segs.drop_first(), data);
            if file_insert(n, segs, data).1 is Err {
                assert(es.update(k, es[k]) =~= es);
                assert(n.with_entries(es) == n);
            }
        } else {
            assert(n.with_entries(es) == n);
        }
    }
}

/// Directory creation is idempotent: repeating a creation, whether it
/// succeeded or failed, changes nothing further and returns the same
/// outcome.
pub proof fn lemma_dir_insert_idempotent(n: NodeModel, segs: Seq<Seq<char>>)
    ensures
        dir_insert(dir_insert(n, segs).0, segs) == dir_insert(n, segs),
    decreases segs.len(),
{
    let (m, r) = dir_insert(n, segs);
    if segs.len() == 0 || n is File {
    } else if r is Err {
        lemma_dir_insert_err_unchanged(n, segs);
    } else {
        let es = n.entries();
        let name = segs[0];
        let k = first_dir_named(es, name);
        lemma_first_dir_named(es, name);
        if 0 <= k < es.len() {
            let (c, rc) = dir_insert(es[k], segs.drop_first());
            let es2 = es.update(k, c);
            assert(m == n.with_entries(es2));
            assert(m.entries() == es2);
            lemma_dir_insert_shell(es[k], segs.drop_first());
            assert forall|j: int| 0 <= j < k implies !dir_named(#[trigger] es2[j], name) by {
                assert(es2[j] == es[j]);
            }
            lemma_first_dir_named_unique(es2, name, k);
            lemma_dir_insert_idempotent(es[k], segs.drop_first());
            assert(dir_insert(c, segs.drop_first()) == (c, rc));
            assert(es2.update(k, c) =~= es2);
            assert(m.with_entries(es2) == m);
        } else if segs.len() > 1 && has_file_named(es, name) {
        } else {
            let fresh = NodeModel::Dir { name, entries: Seq::empty() };
            let (c, rc) = dir_insert(fresh, segs.drop_first());
            let es2 = es.push(c);
            assert(m == n.with_entries(es2));
            assert(m.entries() == es2);
            lemma_dir_insert_shell(fresh, segs.drop_first());
            assert(dir_named(es2[es.len() as int], name));
            assert forall|j: int| 0 <= j < es.len() implies !dir_named(
                #[trigger] es2[j],
                name,
            ) by {
                assert(es2[j] == es[j]);
            }
            lemma_first_dir_named_unique(es2, name, es.len() as int);
            lemma_dir_insert_idempotent(fresh, segs.drop_first());
            assert(dir_insert(c, segs.drop_first()) == (c, rc));
            assert(es2.update(es.len() as int, c) =~= es2);
            assert(m.with_entries(es2) == m);
        }
    }
}

/// Finds the first directory child named like `seg`, returning its index,
/// or the child count when there is none.
fn find_dir_child(entries: &Vec<FsNode>, seg: &String) -> (k: usize)
    ensures
        k as int == first_dir_named(models_of(entries@), seg@),
        k <= entries@.len(),
{
    let ghost es = models_of(entries@);
    let mut k: usize = 0;
    while k < entries.len()
        invariant
            k <= entries@.len(),
            es == models_of(entries@),
            forall|j: int| 0 <= j < k ==> !dir_named(#[trigger] es[j], seg@),
        decreases entries@.len() - k,
    {
        proof {
            lemma_models_of(entries@);
            assert(es[k as int] == entries@[k as int].model());
        }
        let matched = match &entries[k] {
            FsNode::Dir { name, .. } => name.eq(seg),
            FsNode::Root { .. } => false,
            FsNode::File { .. } => false,
        };
        proof {
            assert(matched == dir_named(es[k as int], seg@));
        }
        if matched {
            proof {
                lemma_first_dir_named_unique(es, seg@, k as int);
            }
            return k;
        }
        k += 1;
    }
    proof {
        lemma_models_of(entries@);
        lemma_first_dir_named_unique(es, seg@, k as int);
    }
    k
}

/// Whether some child is a file named like `seg`.
fn has_file_child(entries: &Vec<FsNode>, seg: &String) -> (b: bool)
    ensures
        b == has_file_named(models_of(entries@), seg@),
{
    let ghost es = models_of(entries@);
    let mut k: usize = 0;
    while k < entries.len()
        invariant
            k <= entries@.len(),
            es == models_of(entries@),
            forall|j: int|
                0 <= j < k ==> !((#[trigger] es[j]) is File && es[j].entry_name() == seg@),
        decreases entries@.len() - k,
    {
        proof {
            lemma_models_of(entries@);
            assert(es[k as int] == entries@[k as int].model());
        }
        let matched = match &entries[k] {
            FsNode::File { name, .. } => name.eq(seg),
            FsNode::Root { .. } => false,
            FsNode::Dir { .. } => false,
        };
        proof {
            assert(matched == (es[k as int] is File && es[k as int].entry_name() == seg@));
        }
        if matched {
            return true;
        }
        k += 1;
    }
    proof {
        lemma_models_of(entries@);
        assert(!has_file_named(es, seg@));
    }
    false
}

/// The directory-creation step on a container's child list, for the
/// segments from position `from` on.
fn dir_insert_entries(entries: Vec<FsNode>, segs: &Vec<String>, from: usize) -> (res: (
    Vec<FsNode>,
    Result<(), FsError>,
))
    requires
        from < segs@.len(),
    ensures
        ({
            let (es2, r) = dir_insert_entries_m(
                models_of(entries@),
                segs.deep_view().skip(from as int),
            );
            models_of(res.0@) == es2 && outcome_model(res.1) == r
        }),
    decreases segs@.len() - from, 0int,
{
    let ghost es = models_of(entries@);
    let ghost ss = segs.deep_view().skip(from as int);
    let ghost ev0 = entries@;
    let mut entries = entries;
    let seg = &segs[from];
    proof {
        vstd::std_specs::vec::axiom_spec_len(segs);
        assert(ss[0] == seg@);
        assert(ss.drop_first() =~= segs.deep_view().skip(from as int + 1));
        lemma_first_dir_named(es, seg@);
        lemma_models_of(ev0);
    }
    let k = find_dir_child(&entries, seg);
    if k < entries.len() {
        let mut child = FsNode::Root { entries: Vec::new() };
        entries.set_and_swap(k, &mut child);
        proof {
            assert(child@ == es[k as int]);
        }
        let (child2, r) = dir_insert_node(child, segs, from + 1);
        let ghost c2 = child2;
        let mut child2 = child2;
        entries.set_and_swap(k, &mut child2);
        proof {
            assert(entries@ =~= ev0.update(k as int, c2));
            lemma_models_of(entries@);
            assert forall|j: int| 0 <= j < entries@.len() implies models_of(entries@)[j]
                == es.update(k as int, c2@)[j] by {
                assert(models_of(entries@)[j] == entries@[j].model());
                assert(es[j] == ev0[j].model());
            }
            assert(models_of(entries@) =~= es.update(k as int, c2@));
        }
        (entries, r)
    } else {
        let more_segments = from + 1 < segs.len();
        let hasf = more_segments && has_file_child(&entries, seg);
        if hasf {
            (entries, Err(FsError::TargetIsFile))
        } else {
            let fresh_entries: Vec<FsNode> = Vec::new();
            proof {
                assert(models_of(fresh_entries@) =~= Seq::<NodeModel>::empty());
            }
            let fresh = FsNode::Dir { name: seg.clone(), entries: fresh_entries };
            proof {
                assert(fresh@ == (NodeModel::Dir { name: seg@, entries: Seq::empty() }));
            }
            let (child2, r) = dir_insert_node(fresh, segs, from + 1);
            let ghost c2 = child2;
            entries.push(child2);
            proof {
                assert(entries@ =~= ev0.push(c2));
                lemma_models_of(entries@);
                assert forall|j: int| 0 <= j < entries@.len() implies models_of(entries@)[j]
                    == es.push(c2@)[j] by {
                    assert(models_of(entries@)[j] == entries@[j].model());
                    if j < ev0.len() {
                        assert(es[j] == ev0[j].model());
                    }
                }
                assert(models_of(entries@) =~= es.push(c2@));
            }
            (entries, r)
        }
    }
}

/// The directory-creation step on a node, for the segments from position
/// `from` on.
fn dir_insert_node(n: FsNode, segs: &Vec<String>, from: usize) -> (res: (
    FsNode,
    Result<(), FsError>,
))
    requires
        from <= segs@.len(),
    ensures
        ({
            let (m, r) = dir_insert(n@, segs.deep_view().skip(from as int));
            res.0@ == m && outcome_model(res.1) == r
        }),
    decreases segs@.len() - from, 1int,
{
    if from == segs.len() {
        proof {
            assert(segs.deep_view().skip(from as int) =~= Seq::<Seq<char>>::empty());
        }
        return (n, Ok(()));
    }
    match n {
        FsNode::File { name, contents } => {
            (FsNode::File { name, contents }, Err(FsError::TargetIsFile))
        },
        FsNode::Root { entries } => {
            let (es2, r) = dir_insert_entries(entries, segs, from);
            (FsNode::Root { entries: es2 }, r)
        },
        FsNode::Dir { name, entries } => {
            let (es2, r) = dir_insert_entries(entries, segs, from);
            (FsNode::Dir { name, entries: es2 }, r)
        },
    }
}

/// The file-creation step on a container's child list, for the segments
/// from position `from` on.
fn file_insert_entries(entries: Vec<FsNode>, segs: &Vec<String>, from: usize, data: Vec<u8>) -> (res:
    (Vec<FsNode>, Result<(), FsError>))
    requires
        from < segs@.len(),
    ensures
        ({
            let (es2, r) = file_insert_entries_m(
                models_of(entries@),
                segs.deep_view().skip(from as int),
                data@,
            );
            models_of(res.0@) == es2 && outcome_model(res.1) == r
        }),
    decreases segs@.len() - from, 0int,
{
    let ghost es = models_of(entries@);
    let ghost ss = segs.deep_view().skip(from as int);
    let ghost ev0 = entries@;
    let mut entries = entries;
    let seg = &segs[from];
    proof {
        vstd::std_specs::vec::axiom_spec_len(segs);
        assert(ss[0] == seg@);
        assert(ss.drop_first() =~= segs.deep_view().skip(from as int + 1));
        lemma_first_dir_named(es, seg@);
        lemma_models_of(ev0);
    }
    if from + 1 == segs.len() {
        let node = FsNode::File { name: seg.clone(), contents: data };
        let ghost c2 = node;
        entries.push(node);
        proof {
            assert(entries@ =~= ev0.push(c2));
            lemma_models_of(entries@);
            assert(c2@ == (NodeModel::File { name: seg@, contents: data@ }));
            assert forall|j: int| 0 <= j < entries@.len() implies models_of(entries@)[j]
                == es.push(c2@)[j] by {
                assert(models_of(entries@)[j] == entries@[j].model());
                if j < ev0.len() {
                    assert(es[j] == ev0[j].model());
                }
            }
            assert(models_of(entries@) =~= es.push(c2@));
        }
        (entries, Ok(()))
    } else {
        let k = find_dir_child(&entries, seg);
        if k < entries.len() {
            let mut child = FsNode::Root { entries: Vec::new() };
            entries.set_and_swap(k, &mut child);
            proof {
                assert(child@ == es[k as int]);
            }
            let (child2, r) = file_insert_node(child, segs, from + 1, data);
            let ghost c2 = child2;
            let mut child2 = child2;
            entries.set_and_swap(k, &mut child2);
            proof {
                assert(entries@ =~= ev0.update(k as int, c2));
                lemma_models_of(entries@);
                assert forall|j: int| 0 <= j < entries@.len() implies models_of(entries@)[j]
                    == es.update(k as int, c2@)[j] by {
                    assert(models_of(entries@)[j] == entries@[j].model());
                    assert(es[j] == ev0[j].model());
                }
                assert(models_of(entries@) =~= es.update(k as int, c2@));
            }
            (entries, r)
        } else {
            let hasf = has_file_child(&entries, seg);
            if hasf {
                (entries, Err(FsError::TargetIsFile))
            } else {
                (entries, Err(FsError::MissingDirectory(seg.clone())))
            }
        }
    }
}

/// The file-creation step on a node, for the segments from position
/// `from` on.
fn file_insert_node(n: FsNode, segs: &Vec<String>, from: usize, data: Vec<u8>) -> (res: (
    FsNode,
    Result<(), FsError>,
))
    requires
        from <= segs@.len(),
    ensures
        ({
            let (m, r) = file_insert(n@, segs.deep_view().skip(from as int), data@);
            res.0@ == m && outcome_model(res.1) == r
        }),
    decreases segs@.len() - from, 1int,
{
    if from == segs.len() {
        proof {
            assert(segs.deep_view().skip(from as int) =~= Seq::<Seq<char>>::empty());
        }
        return (n, Ok(()));
    }
    match n {
        FsNode::File { name, contents } => {
            (FsNode::File { name, contents }, Err(FsError::TargetIsFile))
        },
        FsNode::Root { entries } => {
            let (es2, r) = file_insert_entries(entries, segs, from, data);
            (FsNode::Root { entries: es2 }, r)
        },
        FsNode::Dir { name, entries } => {
            let (es2, r) = file_insert_entries(entries, segs, from, data);
            (FsNode::Dir { name, entries: es2 }, r)
        },
    }
}

/// Creates a directory at `path`, creating every missing intermediate
/// directory on the way and merging into directories that already exist.
///
/// The path is validated against the name grammar, then the path grammar,
/// before anything is touched. The one structural failure is a segment
/// that must be descended through naming an existing file; any failure
/// leaves the tree unchanged.
pub fn create_dir(root: &mut FsNode, path: &str) -> (r: Result<(), FsError>)
    ensures
        !valid_name(path@) ==> r == Err::<(), FsError>(FsError::InvalidName) && *final(root)
            == *old(root),
        valid_name(path@) && !valid_path(path@) ==> r == Err::<(), FsError>(FsError::InvalidPath)
            && *final(root) == *old(root),
        valid_name(path@) && valid_path(path@) ==> ({
            let (m, rm) = dir_insert(old(root)@, split_path(path@));
            final(root)@ == m && outcome_model(r) == rm
        }),
        r is Err ==> final(root)@ == old(root)@,
{
    if !is_valid_name(path) {
        return Err(FsError::InvalidName);
    }
    if let Err(e) = is_valid_path(path) {
        return Err(e);
    }
    let segs = split_segments(path);
    let mut tmp = FsNode::Root { entries: Vec::new() };
    core::mem::swap(root, &mut tmp);
    let (n2, r) = dir_insert_node(tmp, &segs, 0);
    *root = n2;
    proof {
        assert(segs.deep_view().skip(0) =~= split_path(path@));
        lemma_dir_insert_err_unchanged(old(root)@, split_path(path@));
    }
    r
}

/// Creates a file at `path` with the given contents. Every intermediate
/// directory must already exist: file creation never creates directories.
///
/// The path is validated against the name grammar, then the path grammar,
/// before anything is touched. A missing intermediate directory or a
/// segment that must be descended through naming an existing file fails;
/// any failure leaves the tree unchanged.
pub fn create_file(root: &mut FsNode, path: &str, contents: &[u8]) -> (r: Result<(), FsError>)
    ensures
        !valid_name(path@) ==> r == Err::<(), FsError>(FsError::InvalidName) && *final(root)
            == *old(root),
        valid_name(path@) && !valid_path(path@) ==> r == Err::<(), FsError>(FsError::InvalidPath)
            && *final(root) == *old(root),
        valid_name(path@) && valid_path(path@) ==> ({
            let (m, rm) = file_insert(old(root)@, split_path(path@), contents@);
            final(root)@ == m && outcome_model(r) == rm
        }),
        r is Err ==> final(root)@ == old(root)@,
{
    if !is_valid_name(path) {
        return Err(FsError::InvalidName);
    }
    if let Err(e) = is_valid_path(path) {
        return Err(e);
    }
    let data = slice_to_vec(contents);
    let segs = split_segments(path);
    let mut tmp = FsNode::Root { entries: Vec::new() };
    core::mem::swap(root, &mut tmp);
    let (n2, r) = file_insert_node(tmp, &segs, 0, data);
    *root = n2;
    proof {
        assert(segs.deep_view().skip(0) =~= split_path(path@));
        lemma_file_insert_err_unchanged(old(root)@, split_path(path@), contents@);
    }
    r
}

} // verus!
