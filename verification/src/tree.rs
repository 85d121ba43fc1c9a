//! Content trees as the remote hands them out: logical paths with the bytes
//! of their blobs, and the comparison of two trees.

use vstd::prelude::*;
use crate::digest::{copy_bytes, same_bytes};
use crate::error::path_views;

verus! {

/// One path of a tree, with the bytes of its blob.
#[derive(Debug, PartialEq, Eq)]
pub struct TreeItem {
    pub path: String,
    pub bytes: Vec<u8>,
}

/// A tree item as plain values.
pub struct TreeItemView {
    pub path: Seq<char>,
    pub bytes: Seq<u8>,
}

impl View for TreeItem {
    type V = TreeItemView;

    open spec fn view(&self) -> TreeItemView {
        TreeItemView { path: self.path@, bytes: self.bytes@ }
    }
}

impl Clone for TreeItem {
    fn clone(&self) -> (copy: Self)
        ensures
            copy@ == self@,
    {
        TreeItem { path: self.path.clone(), bytes: copy_bytes(&self.bytes) }
    }
}

/// The items of a vector as plain values.
pub open spec fn tree_view(items: Seq<TreeItem>) -> Seq<TreeItemView> {
    items.map_values(|item: TreeItem| item@)
}

/// No path occurs twice in the tree.
pub open spec fn unique_paths(tree: Seq<TreeItemView>) -> bool {
    forall|i: int, j: int|
        0 <= i < j < tree.len() ==> (#[trigger] tree[i]).path != (#[trigger] tree[j]).path
}

/// Whether the tree has an item under `path`.
pub open spec fn tree_has(tree: Seq<TreeItemView>, path: Seq<char>) -> bool {
    exists|i: int| 0 <= i < tree.len() && (#[trigger] tree[i]).path == path
}

/// The position of an item under `path`.
pub open spec fn tree_index(tree: Seq<TreeItemView>, path: Seq<char>) -> int {
    choose|i: int| 0 <= i < tree.len() && (#[trigger] tree[i]).path == path
}

/// The bytes that the tree holds under `path`, if any.
pub open spec fn blob_at(tree: Seq<TreeItemView>, path: Seq<char>) -> Option<Seq<u8>> {
    if tree_has(tree, path) {
        Some(tree[tree_index(tree, path)].bytes)
    } else {
        None
    }
}

/// The paths of `head` whose bytes `base` does not hold under the same
/// path, in the order of `head`.
pub open spec fn changed_paths(base: Seq<TreeItemView>, head: Seq<TreeItemView>) -> Seq<Seq<char>>
    decreases head.len(),
{
    if head.len() == 0 {
        Seq::empty()
    } else {
        let earlier = changed_paths(base, head.drop_last());
        if blob_at(base, head.last().path) != Some(head.last().bytes) {
            earlier.push(head.last().path)
        } else {
            earlier
        }
    }
}

/// The paths of `base` that `head` lacks, in the order of `base`.
pub open spec fn removed_paths(base: Seq<TreeItemView>, head: Seq<TreeItemView>) -> Seq<Seq<char>>
    decreases base.len(),
{
    if base.len() == 0 {
        Seq::empty()
    } else {
        let earlier = removed_paths(base.drop_last(), head);
        if !tree_has(head, base.last().path) {
            earlier.push(base.last().path)
        } else {
            earlier
        }
    }
}

/// The paths on which `head` diverged from `base`: those that `head` added
/// or changed, then those that it removed.
pub open spec fn diverged_paths(base: Seq<TreeItemView>, head: Seq<TreeItemView>) -> Seq<Seq<char>> {
    changed_paths(base, head) + removed_paths(base, head)
}

/// With unique paths, the item at position `i` is what the tree holds under
/// its path.
pub proof fn lemma_blob_at_item(tree: Seq<TreeItemView>, i: int)
    requires
        unique_paths(tree),
        0 <= i < tree.len(),
    ensures
        tree_has(tree, tree[i].path),
        tree_index(tree, tree[i].path) == i,
        blob_at(tree, tree[i].path) == Some(tree[i].bytes),
{
    let path = tree[i].path;
    assert(tree_has(tree, path));
    let k = tree_index(tree, path);
    assert(0 <= k < tree.len() && tree[k].path == path);
    assert(k == i);
}

proof fn lemma_changed_paths_exact(base: Seq<TreeItemView>, head: Seq<TreeItemView>, path: Seq<char>)
    requires
        unique_paths(head),
    ensures
        changed_paths(base, head).contains(path) <==> tree_has(head, path) && blob_at(base, path)
            != blob_at(head, path),
    decreases head.len(),
{
    if head.len() > 0 {
        let front = head.drop_last();
        let last = head.last();
        let earlier = changed_paths(base, front);
        assert(unique_paths(front)) by {
            assert forall|i: int, j: int| 0 <= i < j < front.len() implies (#[trigger] front[i]).path
                != (#[trigger] front[j]).path by {
                assert(front[i] == head[i] && front[j] == head[j]);
            }
        }
        lemma_changed_paths_exact(base, front, path);
        lemma_blob_at_item(head, head.len() - 1);
        if tree_has(front, path) {
            let i = tree_index(front, path);
            assert(front[i] == head[i]);
            lemma_blob_at_item(front, i);
            lemma_blob_at_item(head, i);
            assert(head[i].path != head[head.len() - 1].path);
        }
        if tree_has(head, path) && path != last.path {
            let i = tree_index(head, path);
            assert(front[i] == head[i]);
        }
        if blob_at(base, last.path) != Some(last.bytes) {
            let longer = earlier.push(last.path);
            assert(longer[earlier.len() as int] == last.path);
            assert forall|k: int| 0 <= k < earlier.len() implies longer[k] == earlier[k] by {}
            if earlier.contains(path) {
                let k = choose|k: int| 0 <= k < earlier.len() && earlier[k] == path;
                assert(longer[k] == path);
            }
            if longer.contains(path) && path != last.path {
                let k = choose|k: int| 0 <= k < longer.len() && longer[k] == path;
                assert(earlier[k] == path);
            }
        }
    } else {
        assert(!changed_paths(base, head).contains(path));
    }
}

proof fn lemma_removed_paths_exact(base: Seq<TreeItemView>, head: Seq<TreeItemView>, path: Seq<char>)
    ensures
        removed_paths(base, head).contains(path) <==> tree_has(base, path) && !tree_has(head, path),
    decreases base.len(),
{
    if base.len() > 0 {
        let front = base.drop_last();
        let last = base.last();
        let earlier = removed_paths(front, head);
        lemma_removed_paths_exact(front, head, path);
        if tree_has(front, path) {
            let i = tree_index(front, path);
            assert(base[i].path == path);
        }
        if tree_has(base, path) && path != last.path {
            let i = tree_index(base, path);
            assert(front[i].path == path);
        }
        assert(base[base.len() - 1].path == last.path);
        if !tree_has(head, last.path) {
            let longer = earlier.push(last.path);
            assert(longer[earlier.len() as int] == last.path);
            if earlier.contains(path) {
                let k = choose|k: int| 0 <= k < earlier.len() && earlier[k] == path;
                assert(longer[k] == path);
            }
            if longer.contains(path) && path != last.path {
                let k = choose|k: int| 0 <= k < longer.len() && longer[k] == path;
                assert(earlier[k] == path);
            }
        }
    } else {
        assert(!removed_paths(base, head).contains(path));
    }
}

/// The diverged paths are exactly the paths under which the two trees do
/// not hold the same bytes: a path is listed if and only if one tree lacks
/// it or the trees disagree on its blob.
pub proof fn lemma_diverged_paths_exact(
    base: Seq<TreeItemView>,
    head: Seq<TreeItemView>,
    path: Seq<char>,
)
    requires
        unique_paths(base),
        unique_paths(head),
    ensures
        diverged_paths(base, head).contains(path) <==> blob_at(base, path) != blob_at(head, path),
{
    lemma_changed_paths_exact(base, head, path);
    lemma_removed_paths_exact(base, head, path);
    let changed = changed_paths(base, head);
    let removed = removed_paths(base, head);
    let all = changed + removed;
    if changed.contains(path) {
        let k = choose|k: int| 0 <= k < changed.len() && changed[k] == path;
        assert(all[k] == path);
    }
    if removed.contains(path) {
        let k = choose|k: int| 0 <= k < removed.len() && removed[k] == path;
        assert(all[changed.len() + k] == path);
    }
    if all.contains(path) {
        let k = choose|k: int| 0 <= k < all.len() && all[k] == path;
        if k < changed.len() {
            assert(changed[k] == path);
        } else {
            assert(removed[k - changed.len()] == path);
        }
    }
}

/// Two trees that hold the same bytes under every path have not diverged.
pub proof fn lemma_equal_trees_have_not_diverged(tree: Seq<TreeItemView>)
    requires
        unique_paths(tree),
    ensures
        diverged_paths(tree, tree) == Seq::<Seq<char>>::empty(),
{
    let listed = diverged_paths(tree, tree);
    if listed.len() > 0 {
        lemma_diverged_paths_exact(tree, tree, listed[0]);
        assert(listed.contains(listed[0]));
    }
    assert(listed =~= Seq::<Seq<char>>::empty());
}

/// The position of the item under `path`, if the tree has one.
pub fn find_item(tree: &Vec<TreeItem>, path: &String) -> (found: Option<usize>)
    ensures
        match found {
            Some(i) => i < tree.len() && tree@[i as int].path@ == path@,
            None => !tree_has(tree_view(tree@), path@),
        },
{
    let mut i: usize = 0;
    while i < tree.len()
        invariant
            i <= tree.len(),
            forall|k: int| 0 <= k < i ==> (#[trigger] tree_view(tree@)[k]).path != path@,
        decreases tree.len() - i,
    {
        if tree[i].path == *path {
            return Some(i);
        }
        assert(tree_view(tree@)[i as int].path == tree@[i as int].path@);
        i = i + 1;
    }
    None
}

/// Whether no path occurs twice in the tree.
pub fn has_unique_paths(tree: &Vec<TreeItem>) -> (unique: bool)
    ensures
        unique == unique_paths(tree_view(tree@)),
{
    let ghost views = tree_view(tree@);
    let mut j: usize = 0;
    while j < tree.len()
        invariant
            j <= tree.len(),
            views == tree_view(tree@),
            forall|a: int, b: int|
                0 <= a < b < j ==> (#[trigger] views[a]).path != (#[trigger] views[b]).path,
        decreases tree.len() - j,
    {
        let mut i: usize = 0;
        while i < j
            invariant
                i <= j < tree.len(),
                views == tree_view(tree@),
                forall|a: int| 0 <= a < i ==> (#[trigger] views[a]).path != views[j as int].path,
            decreases j - i,
        {
            if tree[i].path == tree[j].path {
                assert(views[i as int].path == views[j as int].path);
                return false;
            }
            i = i + 1;
        }
        j = j + 1;
    }
    true
}

/// A fresh vector with copies of the items of `tree`.
pub fn copy_tree(tree: &Vec<TreeItem>) -> (copy: Vec<TreeItem>)
    ensures
        tree_view(copy@) == tree_view(tree@),
{
    let mut copy: Vec<TreeItem> = Vec::new();
    let mut i: usize = 0;
    while i < tree.len()
        invariant
            i <= tree.len(),
            tree_view(copy@) == tree_view(tree@).subrange(0, i as int),
        decreases tree.len() - i,
    {
        let ghost before = copy@;
        copy.push(tree[i].clone());
        assert(tree_view(copy@) =~= tree_view(before).push(tree@[i as int]@));
        assert(tree_view(tree@).subrange(0, i + 1) =~= tree_view(tree@).subrange(0, i as int).push(
            tree@[i as int]@,
        ));
        i = i + 1;
    }
    assert(tree_view(tree@).subrange(0, i as int) =~= tree_view(tree@));
    copy
}

/// The paths on which `head` diverged from `base`.
pub fn diverged(base: &Vec<TreeItem>, head: &Vec<TreeItem>) -> (paths: Vec<String>)
    requires
        unique_paths(tree_view(base@)),
    ensures
        path_views(paths@) == diverged_paths(tree_view(base@), tree_view(head@)),
{
    let ghost base_view = tree_view(base@);
    let ghost head_view = tree_view(head@);
    let mut paths: Vec<String> = Vec::new();
    let mut i: usize = 0;
    assert(path_views(paths@) =~= changed_paths(base_view, head_view.subrange(0, 0)));
    while i < head.len()
        invariant
            i <= head.len(),
            base_view == tree_view(base@),
            head_view == tree_view(head@),
            unique_paths(base_view),
            path_views(paths@) == changed_paths(base_view, head_view.subrange(0, i as int)),
        decreases head.len() - i,
    {
        let ghost before = paths@;
        let ghost upto = head_view.subrange(0, i + 1);
        assert(upto.drop_last() =~= head_view.subrange(0, i as int));
        assert(upto.last() == head@[i as int]@);
        let same = match find_item(base, &head[i].path) {
            Some(at) => {
                proof {
                    lemma_blob_at_item(base_view, at as int);
                }
                same_bytes(&base[at].bytes, &head[i].bytes)
            },
            None => false,
        };
        if !same {
            paths.push(head[i].path.clone());
            assert(path_views(paths@) =~= path_views(before).push(head@[i as int].path@));
        }
        i = i + 1;
    }
    assert(head_view.subrange(0, i as int) =~= head_view);
    let ghost changed = paths@;
    let mut j: usize = 0;
    assert(path_views(paths@) =~= path_views(changed) + removed_paths(
        base_view.subrange(0, 0),
        head_view,
    ));
    while j < base.len()
        invariant
            j <= base.len(),
            base_view == tree_view(base@),
            head_view == tree_view(head@),
            path_views(changed) == changed_paths(base_view, head_view),
            path_views(paths@) == path_views(changed) + removed_paths(
                base_view.subrange(0, j as int),
                head_view,
            ),
        decreases base.len() - j,
    {
        let ghost before = paths@;
        let ghost upto = base_view.subrange(0, j + 1);
        assert(upto.drop_last() =~= base_view.subrange(0, j as int));
        assert(upto.last() == base@[j as int]@);
        let ghost earlier = removed_paths(upto.drop_last(), head_view);
        if find_item(head, &base[j].path).is_none() {
            paths.push(base[j].path.clone());
            assert(path_views(paths@) =~= path_views(before).push(base@[j as int].path@));
            assert(removed_paths(upto, head_view) == earlier.push(upto.last().path));
            assert(path_views(paths@) =~= path_views(changed) + removed_paths(upto, head_view));
        } else {
            assert(tree_has(head_view, upto.last().path)) by {
                let at = choose|at: int| 0 <= at < head.len() && head@[at].path@ == base@[j as int].path@;
                assert(head_view[at].path == upto.last().path);
            }
            assert(removed_paths(upto, head_view) == earlier);
        }
        j = j + 1;
    }
    assert(base_view.subrange(0, j as int) =~= base_view);
    paths
}

} // verus!
