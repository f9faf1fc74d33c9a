//! In-memory snapshot of a filesystem tree.
//!
//! The engine never touches a live filesystem: a caller materialises the
//! tree under inspection as a [`Node`] and hands it in.  A symlink is a
//! leaf carrying its raw target bytes, so a traversal of a snapshot can
//! never follow one — self-referential links, apparent cycles through
//! parent-relative targets, broken links and links escaping the tree are
//! all just leaves, and termination is structural.
//!
//! Every node kind and name is mirrored by a mathematical view
//! ([`NodeV`], [`EntryV`]) that the contracts speak of.

use vstd::prelude::*;

verus! {

/// One node of a filesystem snapshot.
pub enum Node {
    /// A regular file; only its size matters to the rules.
    Regular { size: u64 },
    /// A directory with its entries, in the order a scan yielded them.
    Directory { entries: Vec<Entry> },
    /// A symbolic link and its raw target bytes (never followed).
    Symlink { target: Vec<u8> },
    /// Any other node kind (device, socket, fifo...).
    Other,
}

/// A named directory entry.
pub struct Entry {
    /// Raw entry name: not assumed to be valid text.
    pub name: Vec<u8>,
    pub node: Node,
}

/// Mathematical mirror of [`Node`].
pub enum NodeV {
    Regular { size: u64 },
    Directory { entries: Seq<EntryV> },
    Symlink { target: Seq<u8> },
    Other,
}

/// Mathematical mirror of [`Entry`].
pub struct EntryV {
    pub name: Seq<u8>,
    pub node: NodeV,
}

pub open spec fn node_view(n: Node) -> NodeV
    decreases n,
{
    match n {
        Node::Regular { size } => NodeV::Regular { size },
        Node::Directory { entries } => NodeV::Directory { entries: entries_view(entries@) },
        Node::Symlink { target } => NodeV::Symlink { target: target@ },
        Node::Other => NodeV::Other,
    }
}

pub open spec fn entries_view(es: Seq<Entry>) -> Seq<EntryV>
    decreases es,
{
    if es.len() == 0 {
        Seq::empty()
    } else {
        seq![EntryV { name: es[0].name@, node: node_view(es[0].node) }] + entries_view(
            es.drop_first(),
        )
    }
}

/// The view of a sequence of path components.
pub open spec fn path_view(p: Seq<Vec<u8>>) -> Seq<Seq<u8>> {
    Seq::new(p.len(), |i: int| p[i]@)
}

pub proof fn lemma_entries_view(es: Seq<Entry>)
    ensures
        entries_view(es).len() == es.len(),
        forall|i: int|
            0 <= i < es.len() ==> entries_view(es)[i] == (EntryV {
                name: es[i].name@,
                node: node_view(es[i].node),
            }),
    decreases es.len(),
{
    if es.len() > 0 {
        lemma_entries_view(es.drop_first());
    }
}

/// The node a name denotes among directory entries: the first entry whose
/// name matches.
pub open spec fn child_of(es: Seq<EntryV>, name: Seq<u8>) -> Option<NodeV>
    decreases es.len(),
{
    if es.len() == 0 {
        None
    } else if es[0].name == name {
        Some(es[0].node)
    } else {
        child_of(es.drop_first(), name)
    }
}

/// The node a component path denotes, descending through plain directories
/// only (a symlink on the way is not followed, so the path is absent).
pub open spec fn node_at(n: NodeV, path: Seq<Seq<u8>>) -> Option<NodeV>
    decreases path.len(),
{
    if path.len() == 0 {
        Some(n)
    } else {
        match n {
            NodeV::Directory { entries } => match child_of(entries, path[0]) {
                Some(c) => node_at(c, path.drop_first()),
                None => None,
            },
            _ => None,
        }
    }
}

proof fn lemma_child_of_skip(es: Seq<EntryV>, name: Seq<u8>, i: int)
    requires
        0 <= i <= es.len(),
        forall|j: int| 0 <= j < i ==> es[j].name != name,
    ensures
        child_of(es, name) == child_of(es.skip(i), name),
    decreases i,
{
    if i > 0 {
        lemma_child_of_skip(es.drop_first(), name, i - 1);
        assert(es.drop_first().skip(i - 1) =~= es.skip(i));
    } else {
        assert(es.skip(0) =~= es);
    }
}

/// Look a name up among directory entries.
pub fn child<'a>(entries: &'a Vec<Entry>, name: &Vec<u8>) -> (r: Option<&'a Node>)
    ensures
        match r {
            Some(n) => child_of(entries_view(entries@), name@) == Some(node_view(*n)),
            None => child_of(entries_view(entries@), name@) is None,
        },
{
    proof {
        lemma_entries_view(entries@);
    }
    let ghost esv = entries_view(entries@);
    let mut i: usize = 0;
    while i < entries.len()
        invariant
            i <= entries.len(),
            esv == entries_view(entries@),
            esv.len() == entries@.len(),
            forall|k: int|
                0 <= k < entries@.len() ==> esv[k] == (EntryV {
                    name: entries@[k].name@,
                    node: node_view(entries@[k].node),
                }),
            forall|j: int| 0 <= j < i ==> esv[j].name != name@,
        decreases entries.len() - i,
    {
        if crate::bytestr::bytes_eq(&entries[i].name, name) {
            proof {
                lemma_child_of_skip(esv, name@, i as int);
                assert(esv.skip(i as int)[0] == esv[i as int]);
            }
            return Some(&entries[i].node);
        }
        i = i + 1;
    }
    proof {
        lemma_child_of_skip(esv, name@, i as int);
        assert(esv.skip(i as int).len() == 0);
    }
    None
}

/// Look a component path up from a node.
pub fn node_at_path<'a>(root: &'a Node, path: &Vec<Vec<u8>>) -> (r: Option<&'a Node>)
    ensures
        match r {
            Some(n) => node_at(node_view(*root), path_view(path@)) == Some(node_view(*n)),
            None => node_at(node_view(*root), path_view(path@)) is None,
        },
{
    let ghost pv = path_view(path@);
    proof {
        assert(pv.skip(0) =~= pv);
    }
    let mut cur: &Node = root;
    let mut i: usize = 0;
    while i < path.len()
        invariant
            i <= path.len(),
            pv == path_view(path@),
            pv.len() == path@.len(),
            node_at(node_view(*root), pv) == node_at(node_view(*cur), pv.skip(i as int)),
        decreases path.len() - i,
    {
        proof {
            assert(pv.skip(i as int).len() > 0);
            assert(pv.skip(i as int)[0] == pv[i as int]);
            assert(pv.skip(i as int).drop_first() =~= pv.skip(i as int + 1));
        }
        match cur {
            Node::Directory { entries } => {
                match child(entries, &path[i]) {
                    Some(c) => {
                        cur = c;
                        i = i + 1;
                    },
                    None => {
                        return None;
                    },
                }
            },
            _ => {
                return None;
            },
        }
    }
    proof {
        assert(pv.skip(i as int).len() == 0);
    }
    Some(cur)
}

} // verus!
