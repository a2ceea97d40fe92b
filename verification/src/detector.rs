use vstd::prelude::*;

verus! {

/// One directory entry: the entry's name as the operating system stores it
/// (raw bytes), and the node behind it.
pub struct DirEntry {
    pub name: Vec<u8>,
    pub node: FsNode,
}

/// A snapshot of one node of a directory tree.
pub enum FsNode {
    /// A regular file, with its modification time in seconds since the
    /// Unix epoch.
    File { modified: i64 },
    /// A directory with its entries.
    Dir { entries: Vec<DirEntry> },
}

/// Whether a name carries the document extension: it ends in `.pdf` and
/// the dot is not its first byte (a bare `.pdf` counts as a hidden file
/// without an extension, as the standard path routines treat it).
pub open spec fn is_pdf_name(name: Seq<u8>) -> bool {
    &&& name.len() >= 5
    &&& name[name.len() - 4] == 46u8
    &&& name[name.len() - 3] == 112u8
    &&& name[name.len() - 2] == 100u8
    &&& name[name.len() - 1] == 102u8
}

/// Decides whether a name carries the document extension.
pub fn is_pdf_extension(name: &Vec<u8>) -> (r: bool)
    ensures
        r == is_pdf_name(name@),
{
    let n = name.len();
    if n < 5 {
        return false;
    }
    name[n - 4] == 46 && name[n - 3] == 112 && name[n - 2] == 100 && name[n - 1] == 102
}

/// The first entry of the listing that carries the given name, if any.
pub open spec fn lookup_from(entries: Seq<DirEntry>, name: Seq<u8>, k: int) -> Option<FsNode>
    decreases entries.len() - k,
{
    if k < 0 || k >= entries.len() {
        None
    } else if entries[k].name@ == name {
        Some(entries[k].node)
    } else {
        lookup_from(entries, name, k + 1)
    }
}

/// The baseline counterpart of a name inside one baseline directory.
pub open spec fn lookup(entries: Seq<DirEntry>, name: Seq<u8>) -> Option<FsNode> {
    lookup_from(entries, name, 0)
}

/// Byte-for-byte equality of two names.
fn bytes_equal(a: &Vec<u8>, b: &Vec<u8>) -> (r: bool)
    ensures
        r == (a@ == b@),
{
    if a.len() != b.len() {
        return false;
    }
    let mut i: usize = 0;
    while i < a.len()
        invariant
            0 <= i <= a@.len(),
            a@.len() == b@.len(),
            forall|t: int| 0 <= t < i ==> a@[t] == b@[t],
        decreases a@.len() - i,
    {
        if a[i] != b[i] {
            return false;
        }
        i = i + 1;
    }
    proof {
        assert(a@ =~= b@);
    }
    true
}

/// Finds the baseline counterpart of `name` among baseline entries.
fn lookup_entry<'a>(entries: &'a Vec<DirEntry>, name: &Vec<u8>) -> (r: Option<&'a FsNode>)
    ensures
        match r {
            Some(n) => lookup(entries@, name@) == Some(*n),
            None => lookup(entries@, name@) is None,
        },
{
    let mut k: usize = 0;
    while k < entries.len()
        invariant
            0 <= k <= entries@.len(),
            lookup(entries@, name@) == lookup_from(entries@, name@, k as int),
        decreases entries@.len() - k,
    {
        if bytes_equal(&entries[k].name, name) {
            return Some(&entries[k].node);
        }
        k = k + 1;
    }
    None
}

/// The baseline entries to look child names up in, given the counterpart
/// node of the parent: only a baseline directory offers counterparts; a
/// missing counterpart, or one that is a file, leaves every child without
/// a baseline.
pub open spec fn dir_entries_of(base: Option<FsNode>) -> Option<Seq<DirEntry>> {
    match base {
        Some(FsNode::Dir { entries }) => Some(entries@),
        _ => None,
    }
}

/// The paths under `path` that must be flagged as updated, for one node of
/// the current tree against its baseline counterpart:
/// - a file without a baseline counterpart is flagged unconditionally;
/// - a file whose counterpart is a file is flagged only if it is strictly
///   newer and carries the document extension;
/// - a file whose counterpart is a directory is flagged unconditionally;
/// - a directory is walked recursively, children matched by name.
pub open spec fn updated_node(node: FsNode, base: Option<FsNode>, path: Seq<Seq<u8>>) -> Seq<
    Seq<Seq<u8>>,
>
    decreases node, 0int,
{
    match node {
        FsNode::File { modified } => match base {
            None => seq![path],
            Some(FsNode::File { modified: bm }) => {
                if modified > bm && is_pdf_name(path.last()) {
                    seq![path]
                } else {
                    Seq::empty()
                }
            },
            Some(FsNode::Dir { .. }) => seq![path],
        },
        FsNode::Dir { entries } => updated_children(entries@, dir_entries_of(base), path, 0),
    }
}

/// The flagged paths of the children `k..` of one current directory whose
/// baseline counterpart directory holds `base_dir` (or is missing).
pub open spec fn updated_children(
    entries: Seq<DirEntry>,
    base_dir: Option<Seq<DirEntry>>,
    path: Seq<Seq<u8>>,
    k: int,
) -> Seq<Seq<Seq<u8>>>
    decreases entries, entries.len() - k,
{
    if k < 0 || k >= entries.len() {
        Seq::empty()
    } else {
        let child_base = match base_dir {
            Some(bd) => lookup(bd, entries[k].name@),
            None => None,
        };
        updated_node(entries[k].node, child_base, path.push(entries[k].name@))
            + updated_children(entries, base_dir, path, k + 1)
    }
}

/// For a path, the deep view indexes to the views of its components.
proof fn lemma_path_deep_view(p: Vec<Vec<u8>>)
    ensures
        p.deep_view().len() == p@.len(),
        forall|t: int| 0 <= t < p@.len() ==> #[trigger] p.deep_view()[t] == p@[t]@,
{
    assert forall|t: int| 0 <= t < p@.len() implies #[trigger] p.deep_view()[t] == p@[t]@ by {
        assert(p@[t].deep_view() =~= p@[t]@);
    }
}

/// An exact copy of one name.
fn clone_bytes(name: &Vec<u8>) -> (r: Vec<u8>)
    ensures
        r@ == name@,
{
    let mut c: Vec<u8> = Vec::new();
    let mut j: usize = 0;
    while j < name.len()
        invariant
            0 <= j <= name@.len(),
            c@ =~= name@.subrange(0, j as int),
        decreases name@.len() - j,
    {
        c.push(name[j]);
        proof {
            assert(c@ =~= name@.subrange(0, j + 1));
        }
        j = j + 1;
    }
    proof {
        assert(c@ =~= name@);
    }
    c
}

/// An exact copy of a path.
fn clone_path(path: &Vec<Vec<u8>>) -> (r: Vec<Vec<u8>>)
    ensures
        r.deep_view() == path.deep_view(),
{
    let mut r: Vec<Vec<u8>> = Vec::new();
    let mut i: usize = 0;
    while i < path.len()
        invariant
            0 <= i <= path@.len(),
            r@.len() == i,
            forall|t: int| 0 <= t < i ==> (#[trigger] r@[t])@ == path@[t]@,
        decreases path@.len() - i,
    {
        let c = clone_bytes(&path[i]);
        r.push(c);
        i = i + 1;
    }
    proof {
        lemma_path_deep_view(r);
        lemma_path_deep_view(*path);
        assert(r.deep_view() =~= path.deep_view());
    }
    r
}

/// A copy of `path` extended by one more component.
fn push_component(path: &Vec<Vec<u8>>, name: &Vec<u8>) -> (r: Vec<Vec<u8>>)
    ensures
        r.deep_view() == path.deep_view().push(name@),
{
    let mut r = clone_path(path);
    proof {
        lemma_path_deep_view(r);
        lemma_path_deep_view(*path);
    }
    let c = clone_bytes(name);
    r.push(c);
    proof {
        lemma_path_deep_view(r);
        assert(r.deep_view() =~= path.deep_view().push(name@));
    }
    r
}

/// Walks one current node against its baseline counterpart, appending every
/// flagged path to `out`. `path` is the node's own path, so it is never
/// empty: the node is some entry of the walked tree.
fn visit_node(node: &FsNode, base: Option<&FsNode>, path: &Vec<Vec<u8>>, out: &mut Vec<
    Vec<Vec<u8>>,
>)
    requires
        path.deep_view().len() >= 1,
    ensures
        final(out).deep_view() == old(out).deep_view() + updated_node(
            *node,
            match base {
                Some(b) => Some(*b),
                None => None,
            },
            path.deep_view(),
        ),
    decreases *node, 0int,
{
    match node {
        FsNode::File { modified } => {
            let flagged: bool = match base {
                None => true,
                Some(FsNode::File { modified: bm }) => *modified > *bm && is_pdf_extension(
                    &path[path.len() - 1],
                ),
                Some(FsNode::Dir { .. }) => true,
            };
            proof {
                assert(path.deep_view().last() == path@[path@.len() - 1]@);
            }
            if flagged {
                let p = clone_path(path);
                out.push(p);
                proof {
                    assert(out.deep_view() =~~= old(out).deep_view() + seq![path.deep_view()]);
                }
            }
        },
        FsNode::Dir { entries } => {
            let base_dir: Option<&Vec<DirEntry>> = match base {
                Some(FsNode::Dir { entries: be }) => Some(be),
                _ => None,
            };
            visit_children(entries, 0, base_dir, path, out);
        },
    }
}

/// Walks the children `k..` of one current directory, appending every
/// flagged path to `out`.
fn visit_children(
    entries: &Vec<DirEntry>,
    k: usize,
    base_dir: Option<&Vec<DirEntry>>,
    path: &Vec<Vec<u8>>,
    out: &mut Vec<Vec<Vec<u8>>>,
)
    requires
        k <= entries@.len(),
    ensures
        final(out).deep_view() == old(out).deep_view() + updated_children(
            entries@,
            match base_dir {
                Some(bd) => Some(bd@),
                None => None,
            },
            path.deep_view(),
            k as int,
        ),
    decreases entries@, entries@.len() - k,
{
    if k < entries.len() {
        let e = &entries[k];
        let child_base: Option<&FsNode> = match base_dir {
            Some(bd) => lookup_entry(bd, &e.name),
            None => None,
        };
        let child_path = push_component(path, &e.name);
        visit_node(&e.node, child_base, &child_path, out);
        visit_children(entries, k + 1, base_dir, path, out);
    }
}

/// Walks a current tree against a baseline tree, both given as their root
/// directory listings (`None` for a baseline root that does not exist), and
/// returns the relative paths — one name per component — of every file that
/// must be re-compared, in traversal order.
pub fn find_updated_files(current: &Vec<DirEntry>, baseline: Option<&Vec<DirEntry>>) -> (r: Vec<
    Vec<Vec<u8>>,
>)
    ensures
        r.deep_view() == updated_children(
            current@,
            match baseline {
                Some(b) => Some(b@),
                None => None,
            },
            Seq::empty(),
            0,
        ),
{
    let mut out: Vec<Vec<Vec<u8>>> = Vec::new();
    let path: Vec<Vec<u8>> = Vec::new();
    proof {
        assert(path.deep_view() =~= Seq::<Seq<u8>>::empty());
        assert(out.deep_view() =~= Seq::<Seq<Seq<u8>>>::empty());
    }
    visit_children(current, 0, baseline, &path, &mut out);
    proof {
        assert(out.deep_view() =~= updated_children(
            current@,
            match baseline {
                Some(b) => Some(b@),
                None => None,
            },
            Seq::empty(),
            0,
        ));
    }
    out
}

/// Law: a file whose baseline counterpart is missing entirely is flagged
/// unconditionally — its modification time and its extension play no part.
pub proof fn lemma_missing_baseline_flags_file(
    entries: Seq<DirEntry>,
    base_dir: Option<Seq<DirEntry>>,
    path: Seq<Seq<u8>>,
    k: int,
)
    requires
        0 <= k < entries.len(),
        entries[k].node is File,
        match base_dir {
            Some(bd) => lookup(bd, entries[k].name@) is None,
            None => true,
        },
    ensures
        updated_children(entries, base_dir, path, 0).contains(path.push(entries[k].name@)),
{
    lemma_flagged_from(entries, base_dir, path, 0, k);
}

proof fn lemma_flagged_from(
    entries: Seq<DirEntry>,
    base_dir: Option<Seq<DirEntry>>,
    path: Seq<Seq<u8>>,
    j: int,
    k: int,
)
    requires
        0 <= j <= k < entries.len(),
        entries[k].node is File,
        match base_dir {
            Some(bd) => lookup(bd, entries[k].name@) is None,
            None => true,
        },
    ensures
        updated_children(entries, base_dir, path, j).contains(path.push(entries[k].name@)),
    decreases k - j,
{
    let flagged = path.push(entries[k].name@);
    if j == k {
        assert(updated_node(entries[k].node, None, flagged) == seq![flagged]);
        assert(updated_children(entries, base_dir, path, j)[0] == flagged);
    } else {
        lemma_flagged_from(entries, base_dir, path, j + 1, k);
        let rest = updated_children(entries, base_dir, path, j + 1);
        let idx = choose|i: int| 0 <= i < rest.len() && rest[i] == flagged;
        let head = updated_node(
            entries[j].node,
            match base_dir {
                Some(bd) => lookup(bd, entries[j].name@),
                None => None,
            },
            path.push(entries[j].name@),
        );
        assert((head + rest)[head.len() + idx] == flagged);
    }
}

} // verus!
