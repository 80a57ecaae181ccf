use vstd::prelude::*;
use crate::error::DspfsError;
use crate::file::{File, FileView};
use crate::user::bytes_eq;

verus! {

/// The path separator byte, `/`.
pub const SEP: u8 = 47;

/// The `.` byte.
pub const DOT: u8 = 46;

/// The model of a filetree node: a directory with ordered children, or a
/// leaf holding a file record.
#[verifier::ext_equal]
pub enum TreeView {
    Dir { name: Seq<u8>, children: Seq<TreeView> },
    Leaf { name: Seq<u8>, file: FileView },
}

impl TreeView {
    /// The name of this node.
    pub open spec fn name(self) -> Seq<u8> {
        match self {
            TreeView::Dir { name, .. } => name,
            TreeView::Leaf { name, .. } => name,
        }
    }
}

/// A filetree: directories hold an ordered list of children; leaves hold a
/// file record.  The tree is rooted at an unnamed directory.
#[derive(Debug, PartialEq)]
pub enum FileTree {
    Node { name: Vec<u8>, children: Vec<FileTree> },
    Leaf { name: Vec<u8>, file: File },
}

/// The models of a sequence of trees, in order.
pub open spec fn views_of(s: Seq<FileTree>) -> Seq<TreeView>
    decreases s,
{
    if s.len() == 0 {
        Seq::empty()
    } else {
        views_of(s.drop_last()).push(tree_view(s.last()))
    }
}

/// The model of a tree.
pub open spec fn tree_view(t: FileTree) -> TreeView
    decreases t,
{
    match t {
        FileTree::Node { name, children } => TreeView::Dir {
            name: name@,
            children: views_of(children@),
        },
        FileTree::Leaf { name, file } => TreeView::Leaf { name: name@, file: file@ },
    }
}

impl View for FileTree {
    type V = TreeView;

    open spec fn view(&self) -> TreeView {
        tree_view(*self)
    }
}

pub proof fn lemma_views_of(s: Seq<FileTree>)
    ensures
        views_of(s).len() == s.len(),
        forall|i: int| 0 <= i < s.len() ==> views_of(s)[i] == tree_view(s[i]),
    decreases s,
{
    if s.len() > 0 {
        lemma_views_of(s.drop_last());
        assert forall|i: int| 0 <= i < s.len() implies views_of(s)[i] == tree_view(s[i]) by {
            if i < s.len() - 1 {
                assert(s.drop_last()[i] == s[i]);
            }
        }
    }
}

// ---------------------------------------------------------------------------
// Path normalization
// ---------------------------------------------------------------------------

/// The segments of a byte path, split on `/`.  Splitting never yields an
/// empty list: the empty path has one empty segment.
pub open spec fn split_slash(s: Seq<u8>) -> Seq<Seq<u8>>
    decreases s.len(),
{
    if s.len() == 0 {
        seq![Seq::<u8>::empty()]
    } else {
        let r = split_slash(s.drop_last());
        if s.last() == SEP {
            r.push(Seq::<u8>::empty())
        } else {
            r.update(r.len() - 1, r.last().push(s.last()))
        }
    }
}

pub proof fn lemma_split_slash_len(s: Seq<u8>)
    ensures
        split_slash(s).len() >= 1,
    decreases s.len(),
{
    if s.len() > 0 {
        lemma_split_slash_len(s.drop_last());
    }
}

/// One step of path normalization: how one raw segment changes the list of
/// components gathered so far.  Empty segments and `.` are dropped, `..`
/// removes the last gathered component (or nothing, at the root), anything
/// else is kept.
pub open spec fn norm_step(acc: Seq<Seq<u8>>, seg: Seq<u8>) -> Seq<Seq<u8>> {
    if seg.len() == 0 || seg == seq![DOT] {
        acc
    } else if seg == seq![DOT, DOT] {
        if acc.len() == 0 {
            acc
        } else {
            acc.drop_last()
        }
    } else {
        acc.push(seg)
    }
}

/// Folds [`norm_step`] over the segments, left to right.
pub open spec fn norm_fold(segs: Seq<Seq<u8>>, acc: Seq<Seq<u8>>) -> Seq<Seq<u8>>
    decreases segs.len(),
{
    if segs.len() == 0 {
        acc
    } else {
        norm_fold(segs.drop_first(), norm_step(acc, segs[0]))
    }
}

/// The normalized components of a byte path: `.`/`..` resolved, empty
/// segments dropped.
pub open spec fn norm_comps(path: Seq<u8>) -> Seq<Seq<u8>> {
    norm_fold(split_slash(path), Seq::empty())
}

/// Whether a byte path is absolute: it starts with `/`.
pub open spec fn is_abs(path: Seq<u8>) -> bool {
    path.len() > 0 && path[0] == SEP
}

/// The components joined with `/` separators.
pub open spec fn joined(comps: Seq<Seq<u8>>) -> Seq<u8>
    decreases comps.len(),
{
    if comps.len() == 0 {
        Seq::empty()
    } else if comps.len() == 1 {
        comps[0]
    } else {
        joined(comps.drop_last()) + seq![SEP] + comps.last()
    }
}

/// The normalized form of a byte path: a leading `/` if it was absolute,
/// then its normalized components joined with `/`.
pub open spec fn spec_normalize(path: Seq<u8>) -> Seq<u8> {
    if is_abs(path) {
        seq![SEP] + joined(norm_comps(path))
    } else {
        joined(norm_comps(path))
    }
}

/// Splits a byte path on `/` and resolves `.` and `..` without touching the
/// filesystem.  Returns whether the path was absolute, and the normalized
/// components.
pub fn parse_path(path: &[u8]) -> (r: (bool, Vec<Vec<u8>>))
    ensures
        r.0 == is_abs(path@),
        r.1@.map_values(|c: Vec<u8>| c@) == norm_comps(path@),
{
    let abs = path.len() > 0 && path[0] == SEP;

    // Split on `/`.
    let mut segs: Vec<Vec<u8>> = Vec::new();
    let mut cur: Vec<u8> = Vec::new();
    let mut i: usize = 0;
    while i < path.len()
        invariant
            i <= path.len(),
            split_slash(path@.subrange(0, i as int))
                == segs@.map_values(|c: Vec<u8>| c@).push(cur@),
        decreases path.len() - i,
    {
        proof {
            let pre = path@.subrange(0, i as int);
            let post = path@.subrange(0, i + 1);
            assert(post.drop_last() =~= pre);
            assert(post.last() == path@[i as int]);
            lemma_split_slash_len(pre);
        }
        let ghost pre_maps = segs@.map_values(|c: Vec<u8>| c@);
        let ghost pre_cur = cur@;
        if path[i] == SEP {
            segs.push(cur);
            cur = Vec::new();
            proof {
                assert(segs@.map_values(|c: Vec<u8>| c@) =~= pre_maps.push(pre_cur));
            }
        } else {
            cur.push(path[i]);
        }
        proof {
            let pre = path@.subrange(0, i as int);
            let post = path@.subrange(0, i + 1);
            if path@[i as int] == SEP {
                assert(split_slash(post) =~= segs@.map_values(|c: Vec<u8>| c@).push(cur@));
            } else {
                assert(split_slash(pre).last() == pre_cur);
                assert(split_slash(post)
                    =~= split_slash(pre).update(
                        split_slash(pre).len() - 1,
                        split_slash(pre).last().push(path@[i as int]),
                    ));
                assert(split_slash(post) =~= pre_maps.push(pre_cur.push(path@[i as int])));
                assert(segs@.map_values(|c: Vec<u8>| c@).push(cur@)
                    =~= pre_maps.push(pre_cur.push(path@[i as int])));
            }
        }
        i = i + 1;
    }
    proof {
        assert(path@.subrange(0, path@.len() as int) =~= path@);
    }
    let ghost pre_maps2 = segs@.map_values(|c: Vec<u8>| c@);
    let ghost pre_cur2 = cur@;
    segs.push(cur);
    proof {
        assert(segs@.map_values(|c: Vec<u8>| c@) =~= pre_maps2.push(pre_cur2));
        assert(segs@.map_values(|c: Vec<u8>| c@) =~= split_slash(path@));
    }

    // Fold the normalization rules over the segments.
    let mut comps: Vec<Vec<u8>> = Vec::new();
    proof {
        assert(segs@.map_values(|c: Vec<u8>| c@).skip(0)
            =~= segs@.map_values(|c: Vec<u8>| c@));
        assert(comps@.map_values(|c: Vec<u8>| c@) =~= Seq::<Seq<u8>>::empty());
    }
    let mut k: usize = 0;
    while k < segs.len()
        invariant
            k <= segs.len(),
            segs@.map_values(|c: Vec<u8>| c@) == split_slash(path@),
            norm_comps(path@) == norm_fold(
                segs@.map_values(|c: Vec<u8>| c@).skip(k as int),
                comps@.map_values(|c: Vec<u8>| c@),
            ),
        decreases segs.len() - k,
    {
        let seg = &segs[k];
        let ghost svs = segs@.map_values(|c: Vec<u8>| c@);
        let ghost acc0 = comps@.map_values(|c: Vec<u8>| c@);
        if seg.len() == 0 || (seg.len() == 1 && seg[0] == DOT) {
            proof {
                if seg@.len() == 1 && seg@[0] == DOT {
                    assert(seg@ =~= seq![DOT]);
                }
            }
        } else if seg.len() == 2 && seg[0] == DOT && seg[1] == DOT {
            proof {
                assert(seg@ =~= seq![DOT, DOT]);
                assert(seg@ != seq![DOT]);
                assert(seg@.len() != 0);
            }
            if comps.len() > 0 {
                comps.pop();
                proof {
                    assert(comps@.map_values(|c: Vec<u8>| c@) =~= acc0.drop_last());
                }
            }
        } else {
            proof {
                assert(seg@ != seq![DOT]);
                assert(seg@ != seq![DOT, DOT]);
            }
            comps.push(clone_bytes(seg));
            proof {
                assert(comps@.map_values(|c: Vec<u8>| c@) =~= acc0.push(seg@));
            }
        }
        proof {
            assert(svs.skip(k as int).drop_first() =~= svs.skip(k + 1));
            assert(svs.skip(k as int)[0] == seg@);
            assert(comps@.map_values(|c: Vec<u8>| c@) =~= norm_step(acc0, seg@));
        }
        k = k + 1;
    }
    proof {
        assert(segs@.map_values(|c: Vec<u8>| c@).skip(segs@.len() as int)
            =~= Seq::<Seq<u8>>::empty());
    }
    (abs, comps)
}

/// Copies a byte string.
pub fn clone_bytes(v: &Vec<u8>) -> (r: Vec<u8>)
    ensures
        r@ == v@,
{
    v.clone()
}

/// Normalizes a byte path: resolves `.` and `..` components, drops empty
/// segments, keeps a leading `/`.  Purely textual; the filesystem is never
/// consulted.
pub fn normalize_path(path: &[u8]) -> (r: Vec<u8>)
    ensures
        r@ == spec_normalize(path@),
{
    let (abs, comps) = parse_path(path);
    let mut out: Vec<u8> = Vec::new();
    if abs {
        out.push(SEP);
    }
    let ghost cvs = comps@.map_values(|c: Vec<u8>| c@);
    let mut k: usize = 0;
    while k < comps.len()
        invariant
            k <= comps.len(),
            cvs == comps@.map_values(|c: Vec<u8>| c@),
            out@ == (if is_abs(path@) { seq![SEP] } else { Seq::<u8>::empty() })
                + joined(cvs.subrange(0, k as int))
                + (if k > 0 && k < cvs.len() { seq![SEP] } else { Seq::<u8>::empty() }),
        decreases comps.len() - k,
    {
        let c = &comps[k];
        out.extend_from_slice(c.as_slice());
        proof {
            let pre = cvs.subrange(0, k as int);
            let post = cvs.subrange(0, k + 1);
            assert(post.drop_last() =~= pre);
            assert(post.last() == cvs[k as int]);
            if k == 0 {
                assert(joined(post) =~= cvs[0]);
            } else {
                assert(joined(post) =~= joined(pre) + seq![SEP] + cvs[k as int]);
            }
        }
        if k + 1 < comps.len() {
            out.push(SEP);
        }
        proof {
            assert(out@ =~= (if is_abs(path@) { seq![SEP] } else { Seq::<u8>::empty() })
                + joined(cvs.subrange(0, k + 1))
                + (if k + 1 > 0 && k + 1 < cvs.len() { seq![SEP] } else { Seq::<u8>::empty() }));
        }
        k = k + 1;
    }
    proof {
        assert(cvs.subrange(0, cvs.len() as int) =~= cvs);
        assert(out@ =~= spec_normalize(path@));
    }
    out
}


// ---------------------------------------------------------------------------
// Tree lookups
// ---------------------------------------------------------------------------

/// The index of the first child with the given name, if any.
pub open spec fn find_child(cs: Seq<TreeView>, name: Seq<u8>) -> Option<int>
    decreases cs.len(),
{
    if cs.len() == 0 {
        None
    } else if cs[0].name() == name {
        Some(0int)
    } else {
        match find_child(cs.drop_first(), name) {
            None => None,
            Some(i) => Some(i + 1),
        }
    }
}

pub proof fn lemma_find_child_some(cs: Seq<TreeView>, name: Seq<u8>, i: int)
    requires
        0 <= i < cs.len(),
        cs[i].name() == name,
        forall|j: int| 0 <= j < i ==> cs[j].name() != name,
    ensures
        find_child(cs, name) == Some(i),
    decreases cs.len(),
{
    if i > 0 {
        lemma_find_child_some(cs.drop_first(), name, i - 1);
    }
}

pub proof fn lemma_find_child_none(cs: Seq<TreeView>, name: Seq<u8>)
    requires
        forall|j: int| 0 <= j < cs.len() ==> cs[j].name() != name,
    ensures
        find_child(cs, name) is None,
    decreases cs.len(),
{
    if cs.len() > 0 {
        lemma_find_child_none(cs.drop_first(), name);
    }
}

pub proof fn lemma_find_child_props(cs: Seq<TreeView>, name: Seq<u8>)
    ensures
        match find_child(cs, name) {
            Some(i) => 0 <= i < cs.len() && cs[i].name() == name
                && (forall|j: int| 0 <= j < i ==> cs[j].name() != name),
            None => forall|j: int| 0 <= j < cs.len() ==> cs[j].name() != name,
        },
    decreases cs.len(),
{
    if cs.len() > 0 {
        lemma_find_child_props(cs.drop_first(), name);
        if cs[0].name() != name {
            match find_child(cs.drop_first(), name) {
                Some(i) => {
                    assert(cs.drop_first()[i] == cs[i + 1]);
                    assert forall|j: int| 0 <= j < i + 1 implies cs[j].name() != name by {
                        if j > 0 {
                            assert(cs.drop_first()[j - 1] == cs[j]);
                        }
                    }
                },
                None => {
                    assert forall|j: int| 0 <= j < cs.len() implies cs[j].name() != name by {
                        if j > 0 {
                            assert(cs.drop_first()[j - 1] == cs[j]);
                        }
                    }
                },
            }
        }
    }
}

/// `find_child` looks only at names: it is unchanged by replacing a child
/// with one of the same name.
pub proof fn lemma_find_child_update(cs: Seq<TreeView>, i: int, c: TreeView, name: Seq<u8>)
    requires
        0 <= i < cs.len(),
        c.name() == cs[i].name(),
    ensures
        find_child(cs.update(i, c), name) == find_child(cs, name),
    decreases cs.len(),
{
    let cs2 = cs.update(i, c);
    if i == 0 {
        if cs[0].name() != name {
            assert(cs2.drop_first() =~= cs.drop_first());
        }
    } else {
        assert(cs2.drop_first() =~= cs.drop_first().update(i - 1, c));
        lemma_find_child_update(cs.drop_first(), i - 1, c, name);
    }
}

/// `find_child` keeps its result when a new child is appended, and finds
/// the new child if nothing matched before.
pub proof fn lemma_find_child_push(cs: Seq<TreeView>, c: TreeView, name: Seq<u8>)
    ensures
        find_child(cs, name) is Some ==> find_child(cs.push(c), name) == find_child(cs, name),
        find_child(cs, name) is None && c.name() == name
            ==> find_child(cs.push(c), name) == Some(cs.len() as int),
        find_child(cs, name) is None && c.name() != name
            ==> find_child(cs.push(c), name) is None,
{
    lemma_find_child_props(cs, name);
    match find_child(cs, name) {
        Some(i) => {
            assert(cs.push(c)[i] == cs[i]);
            assert(forall|j: int| 0 <= j < i ==> cs.push(c)[j] == cs[j]);
            lemma_find_child_some(cs.push(c), name, i);
        },
        None => {
            if c.name() == name {
                assert(forall|j: int| 0 <= j < cs.len() ==> cs.push(c)[j] == cs[j]);
                lemma_find_child_some(cs.push(c), name, cs.len() as int);
            } else {
                assert(forall|j: int| 0 <= j < cs.push(c).len()
                    ==> cs.push(c)[j].name() != name);
                lemma_find_child_none(cs.push(c), name);
            }
        },
    }
}

/// The node addressed exactly by a component path, if any.
pub open spec fn spec_find(t: TreeView, comps: Seq<Seq<u8>>) -> Option<TreeView>
    decreases comps.len(),
{
    if comps.len() == 0 {
        Some(t)
    } else {
        match t {
            TreeView::Leaf { .. } => None,
            TreeView::Dir { children, .. } => match find_child(children, comps[0]) {
                None => None,
                Some(i) => spec_find(children[i], comps.drop_first()),
            },
        }
    }
}

/// The deepest node reached by following the components while they match,
/// and how many components were consumed.  A matching leaf is entered and
/// ends the walk.
pub open spec fn spec_traverse(t: TreeView, comps: Seq<Seq<u8>>) -> (TreeView, nat)
    decreases comps.len(),
{
    if comps.len() == 0 {
        (t, 0nat)
    } else {
        match t {
            TreeView::Leaf { .. } => (t, 0nat),
            TreeView::Dir { children, .. } => match find_child(children, comps[0]) {
                None => (t, 0nat),
                Some(i) => match children[i] {
                    TreeView::Leaf { .. } => (children[i], 1nat),
                    TreeView::Dir { .. } => {
                        let r = spec_traverse(children[i], comps.drop_first());
                        (r.0, (r.1 + 1) as nat)
                    },
                },
            },
        }
    }
}

/// The name of a tree node.
pub fn tree_name(t: &FileTree) -> (r: &Vec<u8>)
    ensures
        r@ == t@.name(),
{
    match t {
        FileTree::Node { name, .. } => name,
        FileTree::Leaf { name, .. } => name,
    }
}

/// The index of the first child with the given name, if any.
fn find_child_idx(children: &Vec<FileTree>, name: &Vec<u8>) -> (r: Option<usize>)
    ensures
        match r {
            Some(i) => i < children@.len()
                && find_child(views_of(children@), name@) == Some(i as int),
            None => find_child(views_of(children@), name@) is None,
        },
{
    proof {
        lemma_views_of(children@);
    }
    let mut k: usize = 0;
    while k < children.len()
        invariant
            k <= children.len(),
            views_of(children@).len() == children@.len(),
            forall|j: int| 0 <= j < children@.len()
                ==> views_of(children@)[j] == tree_view(children@[j]),
            forall|j: int| 0 <= j < k ==> views_of(children@)[j].name() != name@,
        decreases children.len() - k,
    {
        if bytes_eq(tree_name(&children[k]).as_slice(), name.as_slice()) {
            proof {
                lemma_find_child_some(views_of(children@), name@, k as int);
            }
            return Some(k);
        }
        k = k + 1;
    }
    proof {
        lemma_find_child_none(views_of(children@), name@);
    }
    None
}

fn find_node<'a>(t: &'a FileTree, comps: &Vec<Vec<u8>>, k: usize) -> (r: Option<&'a FileTree>)
    requires
        k <= comps@.len(),
    ensures
        match r {
            Some(n) => spec_find(t@, comps@.map_values(|c: Vec<u8>| c@).skip(k as int))
                == Some(n@),
            None => spec_find(t@, comps@.map_values(|c: Vec<u8>| c@).skip(k as int)) is None,
        },
    decreases comps@.len() - k,
{
    let ghost cseq = comps@.map_values(|c: Vec<u8>| c@);
    if k == comps.len() {
        proof {
            assert(cseq.skip(k as int) =~= Seq::<Seq<u8>>::empty());
        }
        return Some(t);
    }
    proof {
        assert(cseq.skip(k as int)[0] == cseq[k as int]);
        assert(cseq.skip(k as int).drop_first() =~= cseq.skip(k + 1));
    }
    match t {
        FileTree::Leaf { .. } => None,
        FileTree::Node { name: _, children } => {
            match find_child_idx(children, &comps[k]) {
                None => None,
                Some(i) => {
                    proof {
                        lemma_views_of(children@);
                    }
                    find_node(&children[i], comps, k + 1)
                },
            }
        },
    }
}

// ---------------------------------------------------------------------------
// Insertion
// ---------------------------------------------------------------------------

/// A fresh chain of directories ending in a leaf, one node per component.
pub open spec fn chain(comps: Seq<Seq<u8>>, file: FileView) -> TreeView
    recommends
        comps.len() >= 1,
    decreases comps.len(),
{
    if comps.len() <= 1 {
        TreeView::Leaf { name: comps[0], file }
    } else {
        TreeView::Dir { name: comps[0], children: seq![chain(comps.drop_first(), file)] }
    }
}

/// What inserting a file at a component path does to a tree: intermediate
/// directories are reused when present and created when missing; a path
/// whose target already exists, or that runs through a leaf, is rejected.
pub open spec fn spec_insert(t: TreeView, comps: Seq<Seq<u8>>, file: FileView) -> Option<
    TreeView,
>
    decreases comps.len(),
{
    if comps.len() == 0 {
        None
    } else {
        match t {
            TreeView::Leaf { .. } => None,
            TreeView::Dir { name, children } => match find_child(children, comps[0]) {
                None => Some(
                    TreeView::Dir { name, children: children.push(chain(comps, file)) },
                ),
                Some(i) => {
                    if comps.len() == 1 {
                        None
                    } else {
                        match children[i] {
                            TreeView::Leaf { .. } => None,
                            TreeView::Dir { .. } => match spec_insert(
                                children[i],
                                comps.drop_first(),
                                file,
                            ) {
                                None => None,
                                Some(c) => Some(
                                    TreeView::Dir { name, children: children.update(i, c) },
                                ),
                            },
                        }
                    }
                },
            },
        }
    }
}

/// Builds the chain of missing directories ending in the new leaf, for the
/// components from position `k` on.
fn build_chain(comps: &Vec<Vec<u8>>, k: usize, file: File) -> (r: FileTree)
    requires
        k < comps@.len(),
    ensures
        r@ == chain(comps@.map_values(|c: Vec<u8>| c@).skip(k as int), file@),
{
    let ghost cseq = comps@.map_values(|c: Vec<u8>| c@);
    let ghost fv = file@;
    let last = comps.len() - 1;
    let mut node = FileTree::Leaf { name: clone_bytes(&comps[last]), file };
    proof {
        assert(cseq.skip(last as int).len() == 1);
        assert(cseq.skip(last as int)[0] == cseq[last as int]);
    }
    let mut j: usize = last;
    while j > k
        invariant
            k <= j <= last,
            last == comps@.len() - 1,
            cseq == comps@.map_values(|c: Vec<u8>| c@),
            node@ == chain(cseq.skip(j as int), fv),
        decreases j,
    {
        let ghost prev = node;
        let mut cs: Vec<FileTree> = Vec::new();
        cs.push(node);
        proof {
            lemma_views_of(cs@);
            assert(views_of(cs@).len() == 1);
            assert(views_of(cs@)[0] == tree_view(prev));
            assert(views_of(cs@) =~= seq![prev@]);
        }
        let parent = FileTree::Node { name: clone_bytes(&comps[j - 1]), children: cs };
        proof {
            let sub = cseq.skip(j - 1);
            assert(sub.len() >= 2);
            assert(sub[0] == cseq[j - 1]);
            assert(sub.drop_first() =~= cseq.skip(j as int));
        }
        node = parent;
        j = j - 1;
    }
    node
}


fn insert_rec(t: FileTree, comps: &Vec<Vec<u8>>, k: usize, file: File) -> (r: (FileTree, bool))
    requires
        k < comps@.len(),
    ensures
        match spec_insert(t@, comps@.map_values(|c: Vec<u8>| c@).skip(k as int), file@) {
            Some(v) => r.1 && r.0@ == v,
            None => !r.1 && r.0@ == t@,
        },
    decreases comps@.len() - k,
{
    let ghost cseq = comps@.map_values(|c: Vec<u8>| c@);
    let ghost sub = cseq.skip(k as int);
    let ghost tv = t@;
    proof {
        assert(sub[0] == cseq[k as int]);
        assert(sub.drop_first() =~= cseq.skip(k + 1));
    }
    let n = comps.len();
    match t {
        FileTree::Leaf { name, file: f0 } => (FileTree::Leaf { name, file: f0 }, false),
        FileTree::Node { name, children } => {
            let mut children = children;
            let ghost cviews = views_of(children@);
            proof {
                lemma_views_of(children@);
            }
            match find_child_idx(&children, &comps[k]) {
                None => {
                    let ghost pre = children@;
                    let c = build_chain(comps, k, file);
                    children.push(c);
                    proof {
                        lemma_views_of(children@);
                        assert(children@.drop_last() =~= pre);
                        assert(views_of(children@) =~= cviews.push(chain(sub, file@)));
                    }
                    (FileTree::Node { name, children }, true)
                },
                Some(i) => {
                    if k + 1 == n {
                        proof {
                            assert(sub.len() == 1);
                        }
                        (FileTree::Node { name, children }, false)
                    } else {
                        let child_is_dir = matches!(&children[i], FileTree::Node { .. });
                        proof {
                            assert(cviews[i as int] == tree_view(children@[i as int]));
                        }
                        if !child_is_dir {
                            (FileTree::Node { name, children }, false)
                        } else {
                            let ghost pre = children@;
                            let child = children.remove(i);
                            let (c2, ok) = insert_rec(child, comps, k + 1, file);
                            children.insert(i, c2);
                            proof {
                                assert(children@ =~= pre.update(i as int, c2));
                                lemma_views_of(children@);
                                lemma_views_of(pre);
                                assert(views_of(children@) =~= cviews.update(i as int, c2@));
                                if ok {
                                    assert(c2@ == spec_insert(
                                        cviews[i as int],
                                        sub.drop_first(),
                                        file@,
                                    )->Some_0);
                                } else {
                                    assert(c2@ == cviews[i as int]);
                                    assert(views_of(children@) =~= cviews);
                                }
                            }
                            (FileTree::Node { name, children }, ok)
                        }
                    }
                },
            }
        },
    }
}


// ---------------------------------------------------------------------------
// Deletion
// ---------------------------------------------------------------------------

/// What deleting the node at a component path does to a tree: the new tree
/// and the removed node.  A leaf is always removable; a directory only if
/// `recursive` is set.
pub open spec fn spec_delete(t: TreeView, comps: Seq<Seq<u8>>, recursive: bool) -> Option<
    (TreeView, TreeView),
>
    decreases comps.len(),
{
    if comps.len() == 0 {
        None
    } else {
        match t {
            TreeView::Leaf { .. } => None,
            TreeView::Dir { name, children } => match find_child(children, comps[0]) {
                None => None,
                Some(i) => {
                    if comps.len() == 1 {
                        match children[i] {
                            TreeView::Leaf { .. } => Some(
                                (TreeView::Dir { name, children: children.remove(i) }, children[i]),
                            ),
                            TreeView::Dir { .. } => if recursive {
                                Some(
                                    (
                                        TreeView::Dir { name, children: children.remove(i) },
                                        children[i],
                                    ),
                                )
                            } else {
                                None
                            },
                        }
                    } else {
                        match children[i] {
                            TreeView::Leaf { .. } => None,
                            TreeView::Dir { .. } => match spec_delete(
                                children[i],
                                comps.drop_first(),
                                recursive,
                            ) {
                                None => None,
                                Some(p) => Some(
                                    (
                                        TreeView::Dir { name, children: children.update(i, p.0) },
                                        p.1,
                                    ),
                                ),
                            },
                        }
                    }
                },
            },
        }
    }
}

fn delete_rec(t: FileTree, comps: &Vec<Vec<u8>>, k: usize, recursive: bool) -> (r: (
    FileTree,
    Option<FileTree>,
))
    requires
        k < comps@.len(),
    ensures
        match spec_delete(t@, comps@.map_values(|c: Vec<u8>| c@).skip(k as int), recursive) {
            Some(p) => r.1 matches Some(n) && n@ == p.1 && r.0@ == p.0,
            None => r.1 is None && r.0@ == t@,
        },
    decreases comps@.len() - k,
{
    let ghost cseq = comps@.map_values(|c: Vec<u8>| c@);
    let ghost sub = cseq.skip(k as int);
    proof {
        assert(sub[0] == cseq[k as int]);
        assert(sub.drop_first() =~= cseq.skip(k + 1));
    }
    let n = comps.len();
    match t {
        FileTree::Leaf { name, file } => (FileTree::Leaf { name, file }, None),
        FileTree::Node { name, children } => {
            let mut children = children;
            let ghost cviews = views_of(children@);
            proof {
                lemma_views_of(children@);
            }
            match find_child_idx(&children, &comps[k]) {
                None => (FileTree::Node { name, children }, None),
                Some(i) => {
                    let child_is_leaf = matches!(&children[i], FileTree::Leaf { .. });
                    proof {
                        assert(cviews[i as int] == tree_view(children@[i as int]));
                    }
                    if k + 1 == n {
                        proof {
                            assert(sub.len() == 1);
                        }
                        if child_is_leaf || recursive {
                            let ghost pre = children@;
                            let removed = children.remove(i);
                            proof {
                                lemma_views_of(children@);
                                lemma_views_of(pre);
                                assert(children@ =~= pre.remove(i as int));
                                assert(views_of(children@) =~= cviews.remove(i as int));
                            }
                            (FileTree::Node { name, children }, Some(removed))
                        } else {
                            (FileTree::Node { name, children }, None)
                        }
                    } else {
                        if child_is_leaf {
                            (FileTree::Node { name, children }, None)
                        } else {
                            let ghost pre = children@;
                            let child = children.remove(i);
                            let (c2, removed) = delete_rec(child, comps, k + 1, recursive);
                            children.insert(i, c2);
                            proof {
                                assert(children@ =~= pre.update(i as int, c2));
                                lemma_views_of(children@);
                                lemma_views_of(pre);
                                assert(views_of(children@) =~= cviews.update(i as int, c2@));
                                if removed is None {
                                    assert(c2@ == cviews[i as int]);
                                    assert(views_of(children@) =~= cviews);
                                }
                            }
                            (FileTree::Node { name, children }, removed)
                        }
                    }
                },
            }
        },
    }
}

// ---------------------------------------------------------------------------
// Leaf iteration
// ---------------------------------------------------------------------------

/// The `(name, file)` pairs at the leaves of a tree, in tree order.
pub open spec fn spec_leaves(t: TreeView) -> Seq<(Seq<u8>, FileView)>
    decreases t,
{
    match t {
        TreeView::Leaf { name, file } => seq![(name, file)],
        TreeView::Dir { children, .. } => leaves_of(children),
    }
}

/// The leaves of a sequence of trees, in order.
pub open spec fn leaves_of(cs: Seq<TreeView>) -> Seq<(Seq<u8>, FileView)>
    decreases cs,
{
    if cs.len() == 0 {
        Seq::empty()
    } else {
        spec_leaves(cs[0]) + leaves_of(cs.drop_first())
    }
}

pub proof fn lemma_leaves_of_push(cs: Seq<TreeView>, c: TreeView)
    ensures
        leaves_of(cs.push(c)) == leaves_of(cs) + spec_leaves(c),
    decreases cs,
{
    if cs.len() == 0 {
        assert(cs.push(c)[0] == c);
        assert(cs.push(c).drop_first() =~= Seq::<TreeView>::empty());
        assert(leaves_of(cs.push(c)) == spec_leaves(c) + leaves_of(Seq::<TreeView>::empty()));
        assert(leaves_of(cs.push(c)) =~= leaves_of(cs) + spec_leaves(c));
    } else {
        assert(cs.push(c).drop_first() =~= cs.drop_first().push(c));
        lemma_leaves_of_push(cs.drop_first(), c);
        assert(cs.push(c)[0] == cs[0]);
        let a = spec_leaves(cs[0]);
        let b = leaves_of(cs.drop_first());
        let cc = spec_leaves(c);
        assert(leaves_of(cs.push(c)) == a + (b + cc));
        assert(a + (b + cc) =~= (a + b) + cc);
        assert(leaves_of(cs) == a + b);
    }
}

/// The view of gathered `(name, file)` pairs.
pub open spec fn pair_views(s: Seq<(Vec<u8>, File)>) -> Seq<(Seq<u8>, FileView)> {
    s.map_values(|p: (Vec<u8>, File)| (p.0@, p.1@))
}

fn iter_rec(t: &FileTree, out: &mut Vec<(Vec<u8>, File)>)
    ensures
        pair_views(final(out)@) == pair_views(old(out)@) + spec_leaves(t@),
    decreases *t,
{
    match t {
        FileTree::Leaf { name, file } => {
            out.push((clone_bytes(name), file.clone()));
            proof {
                assert(pair_views(out@) =~= pair_views(old(out)@) + spec_leaves(t@));
            }
        },
        FileTree::Node { name: _, children } => {
            proof {
                lemma_views_of(children@);
            }
            let ghost cviews = views_of(children@);
            let mut idx: usize = 0;
            proof {
                assert(cviews.subrange(0, 0) =~= Seq::<TreeView>::empty());
            }
            while idx < children.len()
                invariant
                    idx <= children.len(),
                    cviews == views_of(children@),
                    cviews.len() == children@.len(),
                    forall|j: int| 0 <= j < children@.len()
                        ==> cviews[j] == tree_view(children@[j]),
                    t@ == (TreeView::Dir { name: t->Node_name@, children: cviews }),
                    *children == t->Node_children,
                    pair_views(out@) == pair_views(old(out)@)
                        + leaves_of(cviews.subrange(0, idx as int)),
                decreases children.len() - idx,
            {
                proof {
                    assert(*children == t->Node_children);
                    assert(decreases_to!(*t => t->Node_children));
                    assert(decreases_to!(t->Node_children => t->Node_children@[idx as int]));
                    assert(decreases_to!(*t => children@[idx as int]));
                }
                iter_rec(&children[idx], out);
                proof {
                    lemma_leaves_of_push(cviews.subrange(0, idx as int), cviews[idx as int]);
                    assert(cviews.subrange(0, idx + 1)
                        =~= cviews.subrange(0, idx as int).push(cviews[idx as int]));
                    assert(pair_views(out@) =~= pair_views(old(out)@)
                        + leaves_of(cviews.subrange(0, idx + 1)));
                }
                idx = idx + 1;
            }
            proof {
                assert(cviews.subrange(0, cviews.len() as int) =~= cviews);
            }
        },
    }
}


// ---------------------------------------------------------------------------
// Public operations
// ---------------------------------------------------------------------------

impl FileTree {
    /// The empty tree: an unnamed directory with no children.
    pub fn new() -> (r: Self)
        ensures
            r@ == (TreeView::Dir { name: Seq::<u8>::empty(), children: Seq::<TreeView>::empty() }),
    {
        let r = FileTree::Node { name: Vec::new(), children: Vec::new() };
        proof {
            assert(views_of(r->Node_children@) =~= Seq::<TreeView>::empty());
        }
        r
    }

    /// Inserts a file at `path`, creating missing intermediate directories.
    /// Rejects absolute or empty paths, a path whose target already exists,
    /// and a path that runs through a leaf; on rejection the tree is
    /// unchanged.
    pub fn insert(&mut self, path: &[u8], file: File) -> (r: Result<(), DspfsError>)
        ensures
            ({
                let comps = norm_comps(path@);
                &&& (is_abs(path@) || comps.len() == 0) ==> (r is Err && final(self)@ == old(
                    self,
                )@)
                &&& (!is_abs(path@) && comps.len() > 0) ==> match spec_insert(
                    old(self)@,
                    comps,
                    file@,
                ) {
                    Some(v) => r is Ok && final(self)@ == v,
                    None => r is Err && final(self)@ == old(self)@,
                }
            }),
    {
        let (abs, comps) = parse_path(path);
        if abs || comps.len() == 0 {
            return Err(DspfsError::InvalidPath);
        }
        let mut t = FileTree::Node { name: Vec::new(), children: Vec::new() };
        core::mem::swap(&mut t, self);
        let (t2, ok) = insert_rec(t, &comps, 0, file);
        *self = t2;
        proof {
            assert(comps@.map_values(|c: Vec<u8>| c@).skip(0)
                =~= comps@.map_values(|c: Vec<u8>| c@));
        }
        if ok {
            Ok(())
        } else {
            Err(DspfsError::InvalidPath)
        }
    }

    /// The node exactly addressed by `path`, if any.  Absolute paths address
    /// nothing.
    pub fn find(&self, path: &[u8]) -> (r: Option<&FileTree>)
        ensures
            is_abs(path@) ==> r is None,
            !is_abs(path@) ==> match r {
                Some(n) => spec_find(self@, norm_comps(path@)) == Some(n@),
                None => spec_find(self@, norm_comps(path@)) is None,
            },
    {
        let (abs, comps) = parse_path(path);
        if abs {
            return None;
        }
        let r = find_node(self, &comps, 0);
        proof {
            assert(comps@.map_values(|c: Vec<u8>| c@).skip(0)
                =~= comps@.map_values(|c: Vec<u8>| c@));
        }
        r
    }

    /// Walks the tree along `path` as far as its components keep matching;
    /// returns the closest node and the number of components consumed.
    pub fn traverse_tree(&self, path: &[u8]) -> (r: Result<(&FileTree, usize), DspfsError>)
        ensures
            is_abs(path@) ==> r is Err,
            !is_abs(path@) ==> (r matches Ok(p) && ({
                let res = spec_traverse(self@, norm_comps(path@));
                p.0@ == res.0 && p.1 == res.1
            })),
    {
        let (abs, comps) = parse_path(path);
        if abs {
            return Err(DspfsError::InvalidPath);
        }
        let r = traverse_rec(self, &comps, 0);
        proof {
            assert(comps@.map_values(|c: Vec<u8>| c@).skip(0)
                =~= comps@.map_values(|c: Vec<u8>| c@));
        }
        Ok(r)
    }

    /// Deletes the node at `path` and returns it: a leaf always, a directory
    /// only if `recursive` is set.  Returns `None`, with the tree unchanged,
    /// if the path addresses nothing deletable.
    pub fn delete(&mut self, path: &[u8], recursive: bool) -> (r: Option<FileTree>)
        ensures
            ({
                let comps = norm_comps(path@);
                &&& (is_abs(path@) || comps.len() == 0) ==> (r is None && final(self)@ == old(
                    self,
                )@)
                &&& (!is_abs(path@) && comps.len() > 0) ==> match spec_delete(
                    old(self)@,
                    comps,
                    recursive,
                ) {
                    Some(p) => (r matches Some(n) && n@ == p.1 && final(self)@ == p.0),
                    None => r is None && final(self)@ == old(self)@,
                }
            }),
    {
        let (abs, comps) = parse_path(path);
        if abs || comps.len() == 0 {
            return None;
        }
        let mut t = FileTree::Node { name: Vec::new(), children: Vec::new() };
        core::mem::swap(&mut t, self);
        let (t2, removed) = delete_rec(t, &comps, 0, recursive);
        *self = t2;
        proof {
            assert(comps@.map_values(|c: Vec<u8>| c@).skip(0)
                =~= comps@.map_values(|c: Vec<u8>| c@));
        }
        removed
    }

    /// The `(leaf name, file)` pairs of the tree, in tree order.
    pub fn iter(&self) -> (r: Vec<(Vec<u8>, File)>)
        ensures
            pair_views(r@) == spec_leaves(self@),
    {
        let mut out: Vec<(Vec<u8>, File)> = Vec::new();
        iter_rec(self, &mut out);
        proof {
            assert(pair_views(out@) =~= spec_leaves(self@));
        }
        out
    }
}

fn traverse_rec<'a>(t: &'a FileTree, comps: &Vec<Vec<u8>>, k: usize) -> (r: (&'a FileTree, usize))
    requires
        k <= comps@.len(),
    ensures
        ({
            let res = spec_traverse(t@, comps@.map_values(|c: Vec<u8>| c@).skip(k as int));
            r.0@ == res.0 && r.1 == res.1
        }),
        r.1 <= comps@.len() - k,
    decreases comps@.len() - k,
{
    let ghost cseq = comps@.map_values(|c: Vec<u8>| c@);
    if k == comps.len() {
        proof {
            assert(cseq.skip(k as int) =~= Seq::<Seq<u8>>::empty());
        }
        return (t, 0);
    }
    proof {
        assert(cseq.skip(k as int)[0] == cseq[k as int]);
        assert(cseq.skip(k as int).drop_first() =~= cseq.skip(k + 1));
    }
    match t {
        FileTree::Leaf { .. } => (t, 0),
        FileTree::Node { name: _, children } => {
            match find_child_idx(children, &comps[k]) {
                None => (t, 0),
                Some(i) => {
                    proof {
                        lemma_views_of(children@);
                    }
                    let child = &children[i];
                    if matches!(child, FileTree::Leaf { .. }) {
                        (child, 1)
                    } else {
                        let (n, c) = traverse_rec(child, comps, k + 1);
                        (n, c + 1)
                    }
                },
            }
        },
    }
}

// ---------------------------------------------------------------------------
// The filetree round trip
// ---------------------------------------------------------------------------

/// After a successful insert, the inserted leaf stands exactly at its path.
pub proof fn lemma_insert_find(t: TreeView, comps: Seq<Seq<u8>>, file: FileView)
    requires
        spec_insert(t, comps, file) is Some,
    ensures
        spec_find(spec_insert(t, comps, file)->Some_0, comps)
            == Some(TreeView::Leaf { name: comps.last(), file }),
    decreases comps.len(),
{
    let t2 = spec_insert(t, comps, file)->Some_0;
    let children = t->Dir_children;
    let name = comps[0];
    lemma_find_child_props(children, name);
    match find_child(children, name) {
        None => {
            let c = chain(comps, file);
            lemma_chain_name(comps, file);
            lemma_find_child_push(children, c, name);
            assert(find_child(t2->Dir_children, name) == Some(children.len() as int));
            assert(t2->Dir_children[children.len() as int] == c);
            lemma_chain_find(comps, file);
        },
        Some(i) => {
            let c2 = spec_insert(children[i], comps.drop_first(), file)->Some_0;
            lemma_insert_find(children[i], comps.drop_first(), file);
            lemma_insert_keeps_name(children[i], comps.drop_first(), file);
            lemma_find_child_update(children, i, c2, name);
            assert(find_child(t2->Dir_children, name) == Some(i));
            assert(t2->Dir_children[i] == c2);
            assert(comps.drop_first().last() == comps.last());
        },
    }
}

/// A successful insert leaves the root's name unchanged.
pub proof fn lemma_insert_keeps_name(t: TreeView, comps: Seq<Seq<u8>>, file: FileView)
    requires
        spec_insert(t, comps, file) is Some,
    ensures
        spec_insert(t, comps, file)->Some_0.name() == t.name(),
{
}

/// The first node of a fresh chain carries the first component's name.
pub proof fn lemma_chain_name(comps: Seq<Seq<u8>>, file: FileView)
    requires
        comps.len() >= 1,
    ensures
        chain(comps, file).name() == comps[0],
{
}

/// Looking a fresh chain's own path up finds its leaf.
pub proof fn lemma_chain_find(comps: Seq<Seq<u8>>, file: FileView)
    requires
        comps.len() >= 1,
    ensures
        spec_find(chain(comps, file), comps.drop_first())
            == Some(TreeView::Leaf { name: comps.last(), file }),
    decreases comps.len(),
{
    if comps.len() == 1 {
        assert(comps.drop_first().len() == 0);
        assert(chain(comps, file) == (TreeView::Leaf { name: comps[0], file }));
    } else {
        let rest = comps.drop_first();
        let c = chain(rest, file);
        lemma_chain_name(rest, file);
        lemma_find_child_some(seq![c], rest[0], 0);
        assert(spec_find(chain(comps, file), rest) == spec_find(c, rest.drop_first()));
        lemma_chain_find(rest, file);
        assert(rest.last() == comps.last());
    }
}

/// Inserting at one path does not disturb any leaf found at another:
/// whatever leaf `find` returned before the insert, it still returns after.
pub proof fn lemma_insert_preserves_leaves(
    t: TreeView,
    comps: Seq<Seq<u8>>,
    file: FileView,
    q: Seq<Seq<u8>>,
    leaf: TreeView,
)
    requires
        spec_insert(t, comps, file) is Some,
        spec_find(t, q) == Some(leaf),
        leaf is Leaf,
    ensures
        spec_find(spec_insert(t, comps, file)->Some_0, q) == Some(leaf),
    decreases comps.len(),
{
    let t2 = spec_insert(t, comps, file)->Some_0;
    let children = t->Dir_children;
    let name = comps[0];
    if q.len() == 0 {
    } else {
        lemma_find_child_props(children, name);
        lemma_find_child_props(children, q[0]);
        match find_child(children, q[0]) {
            None => {
            },
            Some(j) => {
                match find_child(children, name) {
                    None => {
                        let c = chain(comps, file);
                        lemma_chain_name(comps, file);
                        lemma_find_child_push(children, c, q[0]);
                        assert(find_child(t2->Dir_children, q[0]) == Some(j));
                        assert(t2->Dir_children[j] == children[j]);
                    },
                    Some(i) => {
                        let c2 = spec_insert(children[i], comps.drop_first(), file)->Some_0;
                        lemma_insert_keeps_name(children[i], comps.drop_first(), file);
                        lemma_find_child_update(children, i, c2, q[0]);
                        assert(find_child(t2->Dir_children, q[0]) == Some(j));
                        if i == j {
                            lemma_insert_preserves_leaves(
                                children[i],
                                comps.drop_first(),
                                file,
                                q.drop_first(),
                                leaf,
                            );
                        } else {
                            assert(t2->Dir_children[j] == children[j]);
                        }
                    },
                }
            },
        }
    }
}


/// Whether inserting at this component path can succeed: the path is
/// nonempty, runs through directories only, and its target does not exist.
/// Success does not depend on the file being inserted.
pub open spec fn insert_ok(t: TreeView, comps: Seq<Seq<u8>>) -> bool
    decreases comps.len(),
{
    if comps.len() == 0 {
        false
    } else {
        match t {
            TreeView::Leaf { .. } => false,
            TreeView::Dir { children, .. } => match find_child(children, comps[0]) {
                None => true,
                Some(i) => {
                    if comps.len() == 1 {
                        false
                    } else {
                        match children[i] {
                            TreeView::Leaf { .. } => false,
                            TreeView::Dir { .. } => insert_ok(children[i], comps.drop_first()),
                        }
                    }
                },
            },
        }
    }
}

/// Whether an insert succeeds depends on the tree and the path alone, not
/// on the file inserted.
pub proof fn lemma_insert_ok(t: TreeView, comps: Seq<Seq<u8>>, file: FileView)
    ensures
        spec_insert(t, comps, file) is Some <==> insert_ok(t, comps),
    decreases comps.len(),
{
    if comps.len() > 0 {
        match t {
            TreeView::Leaf { .. } => {
            },
            TreeView::Dir { children, .. } => {
                match find_child(children, comps[0]) {
                    None => {
                    },
                    Some(i) => {
                        if comps.len() > 1 {
                            match children[i] {
                                TreeView::Leaf { .. } => {
                                },
                                TreeView::Dir { .. } => {
                                    lemma_insert_ok(children[i], comps.drop_first(), file);
                                },
                            }
                        }
                    },
                }
            },
        }
    }
}

/// The model of the empty root directory.
pub open spec fn empty_dir() -> TreeView {
    TreeView::Dir { name: Seq::<u8>::empty(), children: Seq::<TreeView>::empty() }
}


/// Paths that normalize to the same components address the same node: the
/// lookups go by normalized components alone.
pub proof fn lemma_equivalent_paths(t: TreeView, p: Seq<u8>, q: Seq<u8>)
    requires
        norm_comps(p) == norm_comps(q),
    ensures
        spec_find(t, norm_comps(p)) == spec_find(t, norm_comps(q)),
{
}

impl Clone for FileTree {
    fn clone(&self) -> (r: Self)
        ensures
            r@ == self@,
    {
        clone_tree(self)
    }
}

/// A deep copy of a tree.
pub fn clone_tree(t: &FileTree) -> (r: FileTree)
    ensures
        r@ == t@,
    decreases *t,
{
    match t {
        FileTree::Leaf { name, file } => FileTree::Leaf {
            name: clone_bytes(name),
            file: file.clone(),
        },
        FileTree::Node { name, children } => {
            let mut cs: Vec<FileTree> = Vec::new();
            let ghost cviews = views_of(children@);
            proof {
                lemma_views_of(children@);
                assert(views_of(cs@) =~= cviews.subrange(0, 0));
            }
            let mut i: usize = 0;
            while i < children.len()
                invariant
                    i <= children@.len(),
                    cviews == views_of(children@),
                    cviews.len() == children@.len(),
                    forall|j: int| 0 <= j < children@.len()
                        ==> cviews[j] == tree_view(children@[j]),
                    t is Node,
                    *children == t->Node_children,
                    views_of(cs@) == cviews.subrange(0, i as int),
                decreases children@.len() - i,
            {
                proof {
                    assert(decreases_to!(*t => t->Node_children));
                    assert(decreases_to!(t->Node_children => t->Node_children@[i as int]));
                    assert(decreases_to!(*t => children@[i as int]));
                }
                let c = clone_tree(&children[i]);
                let ghost pre = cs@;
                cs.push(c);
                proof {
                    lemma_views_of(cs@);
                    lemma_views_of(pre);
                    assert(views_of(cs@) =~= cviews.subrange(0, i + 1));
                }
                i = i + 1;
            }
            proof {
                assert(cviews.subrange(0, cviews.len() as int) =~= cviews);
            }
            FileTree::Node { name: clone_bytes(name), children: cs }
        },
    }
}

} // verus!
