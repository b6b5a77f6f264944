use vstd::prelude::*;
use crate::file_tree::{FSTree, FileType, PathInfo};

verus! {

/// Kind of an entry as it crosses the boundary; the position is its integer code.
#[derive(Debug, Clone, Copy, PartialEq, Eq, Structural)]
pub enum FileTypeFFI {
    Directory,
    File,
    Symlink,
    CharDevice,
    BlockDevice,
    NamedPipe,
    Socket,
    Unknown,
}

/// The boundary kind of each kind.
pub open spec fn ffi_kind(ft: FileType) -> FileTypeFFI {
    match ft {
        FileType::Directory => FileTypeFFI::Directory,
        FileType::File => FileTypeFFI::File,
        FileType::Symlink => FileTypeFFI::Symlink,
        FileType::CharDevice => FileTypeFFI::CharDevice,
        FileType::BlockDevice => FileTypeFFI::BlockDevice,
        FileType::NamedPipe => FileTypeFFI::NamedPipe,
        FileType::Socket => FileTypeFFI::Socket,
        FileType::Unknown => FileTypeFFI::Unknown,
    }
}

/// Metadata of an entry in the shape handed across the boundary. Each string becomes
/// one null-terminated buffer of its own when it crosses.
#[derive(Debug)]
pub struct PathInfoFFI {
    pub size: usize,
    pub blocks: usize,
    pub nlink: String,
    pub creation: i64,
    pub modified: i64,
    pub file_type: FileTypeFFI,
}

/// One node of the caller-owned tree: the children become an array of pointers to
/// nodes, of length `children_count`, and no array at all where the count is zero.
#[derive(Debug)]
pub struct FSTreeFFI {
    pub path: String,
    pub info: PathInfoFFI,
    pub children: Vec<FSTreeFFI>,
    pub children_count: usize,
}

/// `f` holds the metadata `info` in boundary shape.
pub open spec fn info_mirrors(info: PathInfo, f: PathInfoFFI) -> bool {
    &&& f.size == info.size
    &&& f.blocks == info.blocks
    &&& f.nlink@ == info.nlink@
    &&& f.creation == info.creation
    &&& f.modified == info.modified
    &&& f.file_type == ffi_kind(info.file_type)
}

/// `f` is the boundary form of `t`, node for node, children in the same order.
pub open spec fn mirrors(t: FSTree, f: FSTreeFFI) -> bool
    decreases t,
{
    &&& f.path@ == t.path@
    &&& info_mirrors(t.info, f.info)
    &&& f.children.len() == t.children.len()
    &&& f.children_count == f.children.len()
    &&& forall|i: int|
        0 <= i < t.children.len() ==> mirrors(#[trigger] t.children@[i], f.children@[i])
}

/// A string can become a null-terminated buffer only without an inner terminator.
pub open spec fn has_no_nul(s: Seq<char>) -> bool {
    forall|i: int| 0 <= i < s.len() ==> s[i] != '\0'
}

/// No path or link-count text in the tree holds a terminator character.
pub open spec fn nul_free(t: FSTree) -> bool
    decreases t,
{
    &&& has_no_nul(t.path@)
    &&& has_no_nul(t.info.nlink@)
    &&& forall|i: int| 0 <= i < t.children.len() ==> nul_free(#[trigger] t.children@[i])
}

/// The boundary code of each kind.
pub fn kind_to_ffi(ft: FileType) -> (r: FileTypeFFI)
    ensures
        r == ffi_kind(ft),
{
    match ft {
        FileType::Directory => FileTypeFFI::Directory,
        FileType::File => FileTypeFFI::File,
        FileType::Symlink => FileTypeFFI::Symlink,
        FileType::CharDevice => FileTypeFFI::CharDevice,
        FileType::BlockDevice => FileTypeFFI::BlockDevice,
        FileType::NamedPipe => FileTypeFFI::NamedPipe,
        FileType::Socket => FileTypeFFI::Socket,
        FileType::Unknown => FileTypeFFI::Unknown,
    }
}

fn info_to_ffi(info: &PathInfo) -> (r: PathInfoFFI)
    ensures
        info_mirrors(*info, r),
{
    PathInfoFFI {
        size: info.size,
        blocks: info.blocks,
        nlink: info.nlink.clone(),
        creation: info.creation,
        modified: info.modified,
        file_type: kind_to_ffi(info.file_type),
    }
}

fn mirror_of(t: &FSTree) -> (r: FSTreeFFI)
    ensures
        mirrors(*t, r),
    decreases t,
{
    let mut children: Vec<FSTreeFFI> = Vec::new();
    let mut i: usize = 0;
    while i < t.children.len()
        invariant
            i <= t.children.len(),
            children.len() == i,
            forall|j: int| 0 <= j < i ==> mirrors(#[trigger] t.children@[j], children@[j]),
        decreases t.children.len() - i,
    {
        assert(decreases_to!(*t => t.children@[i as int]));
        let c = mirror_of(&t.children[i]);
        children.push(c);
        i += 1;
    }
    let count = children.len();
    let r = FSTreeFFI {
        path: t.path.clone(),
        info: info_to_ffi(&t.info),
        children,
        children_count: count,
    };
    assert(r.children@ == children@);
    r
}

/// Converts an owned tree into its caller-owned boundary form: every node, child
/// order, metadata field and string is kept; each count agrees with its array.
pub fn convert_to_ffi(tree: FSTree) -> (r: FSTreeFFI)
    requires
        nul_free(tree),
    ensures
        mirrors(tree, r),
{
    mirror_of(&tree)
}


/// A part of the caller-owned tree that has an allocation of its own.
#[derive(Debug, Clone, Copy, PartialEq, Eq, Structural)]
pub enum Part {
    /// The node itself.
    Node,
    /// The buffer of its path.
    Path,
    /// The buffer of its link-count text.
    LinkCount,
    /// The array of pointers to its children.
    ChildArray,
}

/// Whether `f` holds the part `part` at the address `at`: the address is the list of
/// child positions leading from `f` to the node. A node has a child array only where
/// it has children.
pub open spec fn is_part(f: FSTreeFFI, part: Part, at: Seq<int>) -> bool
    decreases at.len(),
{
    if at.len() == 0 {
        part != Part::ChildArray || f.children_count > 0
    } else {
        0 <= at[0] < f.children.len() && is_part(f.children@[at[0]], part, at.drop_first())
    }
}

/// The parts of `s` seen from one level up, through the child at position `i`.
pub open spec fn under(i: int, s: Seq<(Part, Seq<int>)>) -> Seq<(Part, Seq<int>)> {
    s.map_values(|x: (Part, Seq<int>)| (x.0, seq![i] + x.1))
}

/// The order in which freeing `f` releases its parts: each child's subtree in turn,
/// then the child array (where there is one), then the two strings, then the node.
pub open spec fn release_order(f: FSTreeFFI) -> Seq<(Part, Seq<int>)>
    decreases f, f.children.len() + 1,
{
    let own: Seq<(Part, Seq<int>)> = if f.children_count > 0 {
        seq![(Part::ChildArray, Seq::<int>::empty())]
    } else {
        Seq::empty()
    };
    children_release_order(f, f.children.len() as int) + own + seq![
        (Part::Path, Seq::<int>::empty()),
        (Part::LinkCount, Seq::<int>::empty()),
        (Part::Node, Seq::<int>::empty()),
    ]
}

/// The parts released by freeing the first `k` children of `f`, in order.
pub open spec fn children_release_order(f: FSTreeFFI, k: int) -> Seq<(Part, Seq<int>)>
    decreases f, k,
{
    if k <= 0 || k > f.children.len() {
        Seq::empty()
    } else {
        children_release_order(f, k - 1) + under(k - 1, release_order(f.children@[k - 1]))
    }
}

proof fn lemma_children_release_order(f: FSTreeFFI, k: int)
    requires
        0 <= k <= f.children.len(),
    ensures
        ({
            let c = children_release_order(f, k);
            &&& c.no_duplicates()
            &&& forall|j: int|
                0 <= j < c.len() ==> {
                    &&& (#[trigger] c[j]).1.len() > 0
                    &&& 0 <= c[j].1[0] < k
                    &&& is_part(f.children@[c[j].1[0]], c[j].0, c[j].1.drop_first())
                }
            &&& forall|p: Part, at: Seq<int>|
                at.len() > 0 && 0 <= at[0] < k && #[trigger] is_part(
                    f.children@[at[0]],
                    p,
                    at.drop_first(),
                ) ==> c.contains((p, at))
        }),
    decreases f, k,
{
    if k > 0 {
        let child = f.children@[k - 1];
        assert(decreases_to!(f => child));
        lemma_children_release_order(f, k - 1);
        lemma_release_order(child);
        let prev = children_release_order(f, k - 1);
        let r = release_order(child);
        let u = under(k - 1, r);
        let c = children_release_order(f, k);
        assert(c == prev + u);
        assert forall|j: int| 0 <= j < u.len() implies {
            &&& (#[trigger] u[j]).1.len() > 0
            &&& u[j].1[0] == k - 1
            &&& u[j].1.drop_first() == r[j].1
            &&& u[j].0 == r[j].0
        } by {
            assert((seq![k - 1] + r[j].1).drop_first() =~= r[j].1);
        }
        assert forall|j: int| 0 <= j < c.len() implies {
            &&& (#[trigger] c[j]).1.len() > 0
            &&& 0 <= c[j].1[0] < k
            &&& is_part(f.children@[c[j].1[0]], c[j].0, c[j].1.drop_first())
        } by {
            if j >= prev.len() {
                assert(c[j] == u[j - prev.len()]);
                assert(r.contains(r[j - prev.len()]));
            } else {
                assert(c[j] == prev[j]);
            }
        }
        assert forall|p: Part, at: Seq<int>|
            at.len() > 0 && 0 <= at[0] < k && #[trigger] is_part(
                f.children@[at[0]],
                p,
                at.drop_first(),
            ) implies c.contains((p, at)) by {
            if at[0] < k - 1 {
                assert(prev.contains((p, at)));
                let w = choose|w: int| 0 <= w < prev.len() && prev[w] == (p, at);
                assert(c[w] == (p, at));
            } else {
                assert(r.contains((p, at.drop_first())));
                let w = choose|w: int| 0 <= w < r.len() && r[w] == (p, at.drop_first());
                assert(at =~= seq![k - 1] + at.drop_first());
                assert(u[w] == (p, at));
                assert(c[prev.len() + w] == (p, at));
            }
        }
        assert(u.no_duplicates()) by {
            assert forall|a: int, b: int|
                0 <= a < u.len() && 0 <= b < u.len() && a != b implies u[a] != u[b] by {
                if u[a] == u[b] {
                    assert(r[a].1 == u[a].1.drop_first());
                    assert(r[b].1 == u[b].1.drop_first());
                    assert(r[a] == r[b]);
                }
            }
        }
        assert forall|a: int, b: int| 0 <= a < prev.len() && 0 <= b < u.len() implies prev[a]
            != u[b] by {
            assert(prev[a] == c[a]);
        }
        vstd::seq_lib::lemma_no_dup_in_concat(prev, u);
    }
}

proof fn lemma_release_order(f: FSTreeFFI)
    ensures
        release_order(f).no_duplicates(),
        forall|j: int|
            0 <= j < release_order(f).len() ==> is_part(
                f,
                (#[trigger] release_order(f)[j]).0,
                release_order(f)[j].1,
            ),
        forall|p: Part, at: Seq<int>| #[trigger] is_part(f, p, at) ==> release_order(f).contains((p, at)),
    decreases f, f.children.len() + 1,
{
    let n = f.children.len() as int;
    lemma_children_release_order(f, n);
    let c = children_release_order(f, n);
    let own: Seq<(Part, Seq<int>)> = if f.children_count > 0 {
        seq![(Part::ChildArray, Seq::<int>::empty())]
    } else {
        Seq::empty()
    };
    let tail = seq![
        (Part::Path, Seq::<int>::empty()),
        (Part::LinkCount, Seq::<int>::empty()),
        (Part::Node, Seq::<int>::empty()),
    ];
    let rest = own + tail;
    let s = release_order(f);
    assert(s == c + rest);
    assert forall|j: int| 0 <= j < s.len() implies is_part(f, (#[trigger] s[j]).0, s[j].1) by {
        if j < c.len() {
            assert(s[j] == c[j]);
        } else {
            assert(s[j] == rest[j - c.len()]);
        }
    }
    assert forall|p: Part, at: Seq<int>| #[trigger] is_part(f, p, at) implies s.contains((p, at)) by {
        if at.len() > 0 {
            assert(is_part(f.children@[at[0]], p, at.drop_first()));
            assert(c.contains((p, at)));
            let w = choose|w: int| 0 <= w < c.len() && c[w] == (p, at);
            assert(s[w] == (p, at));
        } else {
            assert(at =~= Seq::<int>::empty());
            if p == Part::ChildArray {
                assert(s[c.len() as int] == (p, at));
            } else if p == Part::Path {
                assert(s[(c.len() + own.len()) as int] == (p, at));
            } else if p == Part::LinkCount {
                assert(s[(c.len() + own.len() + 1) as int] == (p, at));
            } else {
                assert(s[(c.len() + own.len() + 2) as int] == (p, at));
            }
        }
    }
    assert(rest.no_duplicates());
    assert forall|a: int, b: int| 0 <= a < c.len() && 0 <= b < rest.len() implies c[a]
        != rest[b] by {
        assert(c[a].1.len() > 0);
    }
    vstd::seq_lib::lemma_no_dup_in_concat(c, rest);
}

/// Whether `t` has a node at the address `at` (child positions from `t` down).
pub open spec fn is_node_of(t: FSTree, at: Seq<int>) -> bool
    decreases at.len(),
{
    if at.len() == 0 {
        true
    } else {
        0 <= at[0] < t.children.len() && is_node_of(t.children@[at[0]], at.drop_first())
    }
}

proof fn lemma_parts_follow_nodes(t: FSTree, f: FSTreeFFI, p: Part, at: Seq<int>)
    requires
        mirrors(t, f),
        p != Part::ChildArray,
    ensures
        is_part(f, p, at) <==> is_node_of(t, at),
    decreases at.len(),
{
    if at.len() > 0 && 0 <= at[0] < t.children.len() {
        assert(mirrors(t.children@[at[0]], f.children@[at[0]]));
        lemma_parts_follow_nodes(t.children@[at[0]], f.children@[at[0]], p, at.drop_first());
    }
}

/// Freeing a converted tree is the exact inverse of converting it: the release order
/// of the free routine names every allocated part of the boundary form of `tree` (each
/// node, its two strings, and its child array where it has children) exactly once, and
/// nothing else; and there is one node, with its two strings, for each node of `tree`.
pub proof fn lemma_free_inverts_convert(tree: FSTree, f: FSTreeFFI)
    requires
        mirrors(tree, f),
    ensures
        release_order(f).no_duplicates(),
        forall|p: Part, at: Seq<int>|
            release_order(f).contains((p, at)) <==> #[trigger] is_part(f, p, at),
        forall|p: Part, at: Seq<int>|
            p != Part::ChildArray ==> (#[trigger] is_part(f, p, at) <==> is_node_of(tree, at)),
{
    lemma_release_order(f);
    assert forall|p: Part, at: Seq<int>|
        p != Part::ChildArray implies (#[trigger] is_part(f, p, at) <==> is_node_of(tree, at)) by {
        lemma_parts_follow_nodes(tree, f, p, at);
    }
    assert forall|p: Part, at: Seq<int>|
        release_order(f).contains((p, at)) implies #[trigger] is_part(f, p, at) by {
        let w = choose|w: int| 0 <= w < release_order(f).len() && release_order(f)[w] == (p, at);
        assert(is_part(f, release_order(f)[w].0, release_order(f)[w].1));
    }
}

} // verus!
