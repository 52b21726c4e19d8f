use vstd::prelude::*;

verus! {

/// A node of a tree: its data, if any, and its children.
#[derive(Debug)]
pub struct TreeEntity<T> {
    pub data: Option<T>,
    pub child: Vec<TreeEntity<T>>,
}

/// The model of a node.
pub struct SpecNode<T> {
    pub data: Option<T>,
    pub child: Seq<SpecNode<T>>,
}

impl<T> TreeEntity<T> {
    pub open spec fn spec_view(&self) -> SpecNode<T>
        decreases self,
    {
        SpecNode {
            data: self.data,
            child: Seq::new(
                self.child@.len(),
                |i: int|
                    if 0 <= i < self.child.len() {
                        self.child[i].spec_view()
                    } else {
                        SpecNode { data: None, child: Seq::empty() }
                    },
            ),
        }
    }
}

/// The children indices of `path` lead from `n` to a node.
pub open spec fn valid_path<T>(n: SpecNode<T>, path: Seq<usize>) -> bool
    decreases path.len(),
{
    path.len() == 0 || (path[0] < n.child.len() && valid_path(n.child[path[0] as int], path.drop_first()))
}

/// The node that `path` leads to from `n`.
pub open spec fn node_at<T>(n: SpecNode<T>, path: Seq<usize>) -> SpecNode<T>
    decreases path.len(),
{
    if path.len() == 0 || path[0] >= n.child.len() {
        n
    } else {
        node_at(n.child[path[0] as int], path.drop_first())
    }
}

/// `n` with the node that `path` leads to replaced by `m`.
pub open spec fn replace_at<T>(n: SpecNode<T>, path: Seq<usize>, m: SpecNode<T>) -> SpecNode<T>
    decreases path.len(),
{
    if path.len() == 0 || path[0] >= n.child.len() {
        m
    } else {
        SpecNode {
            data: n.data,
            child: n.child.update(path[0] as int, replace_at(n.child[path[0] as int], path.drop_first(), m)),
        }
    }
}

/// The paths of all nodes under `n` (at `prefix`), in pre-order.
pub open spec fn preorder<T>(n: SpecNode<T>, prefix: Seq<usize>) -> Seq<Seq<usize>>
    decreases n, 1int,
{
    seq![prefix] + children_preorder(n.child, prefix, n.child.len() as int)
}

/// The pre-order paths of the first `k` children.
pub open spec fn children_preorder<T>(c: Seq<SpecNode<T>>, prefix: Seq<usize>, k: int) -> Seq<Seq<usize>>
    decreases c, k,
{
    if k <= 0 || k > c.len() {
        Seq::empty()
    } else {
        children_preorder(c, prefix, k - 1) + preorder(c[k - 1], prefix.push((k - 1) as usize))
    }
}

/// An edit of one node.
enum Edit<T> {
    Push(Option<T>),
    Assign(T),
    Remove(usize),
}

spec fn edited<T>(n: SpecNode<T>, e: Edit<T>) -> SpecNode<T> {
    match e {
        Edit::Push(d) => SpecNode { data: n.data, child: n.child.push(SpecNode { data: d, child: Seq::empty() }) },
        Edit::Assign(d) => SpecNode { data: Some(d), child: n.child },
        Edit::Remove(i) => SpecNode { data: n.data, child: n.child.remove(i as int) },
    }
}

spec fn edit_ok<T>(n: SpecNode<T>, e: Edit<T>) -> bool {
    match e {
        Edit::Remove(i) => i < n.child.len(),
        _ => true,
    }
}

fn edit_at<T>(node: &mut TreeEntity<T>, path: &Vec<usize>, depth: usize, e: Edit<T>)
    requires
        depth <= path@.len(),
        valid_path(old(node).spec_view(), path@.skip(depth as int)),
        edit_ok(node_at(old(node).spec_view(), path@.skip(depth as int)), e),
    ensures
        final(node).spec_view() == replace_at(
            old(node).spec_view(),
            path@.skip(depth as int),
            edited(node_at(old(node).spec_view(), path@.skip(depth as int)), e),
        ),
    decreases path@.len() - depth,
{
    let ghost old_view = node.spec_view();
    if depth == path.len() {
        assert(path@.skip(depth as int).len() == 0);
        match e {
            Edit::Push(d) => {
                let leaf = TreeEntity { data: d, child: Vec::new() };
                assert(leaf.spec_view().child =~= Seq::<SpecNode<T>>::empty());
                node.child.push(leaf);
                assert(node.spec_view().child =~= edited(old_view, e).child);
            },
            Edit::Assign(d) => {
                node.data = Some(d);
                assert(node.spec_view().child =~= edited(old_view, e).child);
            },
            Edit::Remove(i) => {
                node.child.remove(i);
                assert(node.spec_view().child =~= edited(old_view, e).child);
            },
        }
    } else {
        let i = path[depth];
        let ghost rest = path@.skip(depth as int);
        assert(rest[0] == i);
        assert(rest.drop_first() =~= path@.skip(depth + 1));
        let mut c = node.child.remove(i);
        assert(c.spec_view() == old_view.child[i as int]);
        edit_at(&mut c, path, depth + 1, e);
        node.child.insert(i, c);
        assert(node.spec_view().child =~= old_view.child.update(
            i as int,
            replace_at(
                old_view.child[i as int],
                path@.skip(depth + 1),
                edited(node_at(old_view.child[i as int], path@.skip(depth + 1)), e),
            ),
        ));
    }
}


/// Replacing the node at a valid path by `m` puts `m` there: reading at the path gives `m`,
/// the path stays valid, and so do its extensions by the children of `m`.
pub proof fn lemma_replace_at<T>(n: SpecNode<T>, p: Seq<usize>, m: SpecNode<T>)
    requires
        valid_path(n, p),
    ensures
        node_at(replace_at(n, p, m), p) == m,
        forall|i: usize| #![auto] valid_path(replace_at(n, p, m), p.push(i)) <==> i < m.child.len(),
        valid_path(replace_at(n, p, m), p),
    decreases p.len(),
{
    if p.len() == 0 {
        assert forall|i: usize| #![auto] valid_path(m, p.push(i)) <==> i < m.child.len() by {
            reveal_with_fuel(valid_path, 2);
            assert(p.push(i) =~= seq![i]);
            assert(seq![i].drop_first() =~= Seq::<usize>::empty());
        }
    } else {
        let c = n.child[p[0] as int];
        lemma_replace_at(c, p.drop_first(), m);
        assert forall|i: usize| #![auto] valid_path(replace_at(n, p, m), p.push(i)) <==> i < m.child.len() by {
            assert(p.push(i).drop_first() =~= p.drop_first().push(i));
            assert(p.push(i)[0] == p[0]);
        }
    }
}

/// A path that leads to a node passes through its parent, whose child it is.
pub proof fn lemma_path_prefix<T>(n: SpecNode<T>, p: Seq<usize>, i: usize)
    requires
        valid_path(n, p.push(i)),
    ensures
        valid_path(n, p),
        i < node_at(n, p).child.len(),
        node_at(n, p.push(i)) == node_at(n, p).child[i as int],
    decreases p.len(),
{
    if p.len() == 0 {
        reveal_with_fuel(valid_path, 2);
        reveal_with_fuel(node_at, 2);
        assert(p.push(i) =~= seq![i]);
        assert(seq![i].drop_first() =~= Seq::<usize>::empty());
    } else {
        assert(p.push(i).drop_first() =~= p.drop_first().push(i));
        assert(p.push(i)[0] == p[0]);
        lemma_path_prefix(n.child[p[0] as int], p.drop_first(), i);
    }
}

/// A path to a node, extended by one of its children, leads to that child.
pub proof fn lemma_path_extend<T>(n: SpecNode<T>, p: Seq<usize>, i: usize)
    requires
        valid_path(n, p),
        i < node_at(n, p).child.len(),
    ensures
        valid_path(n, p.push(i)),
    decreases p.len(),
{
    if p.len() == 0 {
        reveal_with_fuel(valid_path, 2);
        assert(p.push(i) =~= seq![i]);
        assert(seq![i].drop_first() =~= Seq::<usize>::empty());
    } else {
        assert(p.push(i).drop_first() =~= p.drop_first().push(i));
        assert(p.push(i)[0] == p[0]);
        lemma_path_extend(n.child[p[0] as int], p.drop_first(), i);
    }
}

fn child_count<T>(node: &TreeEntity<T>, path: &Vec<usize>, depth: usize) -> (r: usize)
    requires
        depth <= path@.len(),
        valid_path(node.spec_view(), path@.skip(depth as int)),
    ensures
        r == node_at(node.spec_view(), path@.skip(depth as int)).child.len(),
    decreases path@.len() - depth,
{
    if depth == path.len() {
        assert(path@.skip(depth as int).len() == 0);
        node.child.len()
    } else {
        let i = path[depth];
        assert(path@.skip(depth as int)[0] == i);
        assert(path@.skip(depth as int).drop_first() =~= path@.skip(depth + 1));
        child_count(&node.child[i], path, depth + 1)
    }
}

fn node_ref<'a, T>(node: &'a TreeEntity<T>, path: &Vec<usize>, depth: usize) -> (r: &'a TreeEntity<T>)
    requires
        depth <= path@.len(),
    ensures
        r.spec_view() == node_at(node.spec_view(), path@.skip(depth as int)),
    decreases path@.len() - depth,
{
    if depth == path.len() {
        assert(path@.skip(depth as int).len() == 0);
        node
    } else {
        let i = path[depth];
        assert(path@.skip(depth as int)[0] == i);
        assert(path@.skip(depth as int).drop_first() =~= path@.skip(depth + 1));
        if i < node.child.len() {
            node_ref(&node.child[i], path, depth + 1)
        } else {
            node
        }
    }
}

/// A tree under construction, with a pointer to the current node.
#[derive(Debug)]
pub struct TreeBuilder<T> {
    pub root: TreeEntity<T>,
    pub pointer: Vec<usize>,
}

/// The paths of the nodes of a tree, in pre-order.
#[derive(Debug)]
pub struct TreeCache {
    pub list: Vec<Vec<usize>>,
}

/// A built tree, with the list of its nodes.
#[derive(Debug)]
pub struct Tree<T> {
    pub root: TreeEntity<T>,
    pub cache: TreeCache,
}

pub open spec fn paths_view(v: Seq<Vec<usize>>) -> Seq<Seq<usize>> {
    Seq::new(v.len(), |i: int| v[i]@)
}

impl<T> TreeBuilder<T> {
    /// The pointer leads to a node.
    pub open spec fn wf(&self) -> bool {
        valid_path(self.root.spec_view(), self.pointer@)
    }

    /// The node the pointer leads to.
    pub open spec fn current(&self) -> SpecNode<T> {
        node_at(self.root.spec_view(), self.pointer@)
    }

    /// The tree with the current node edited.
    spec fn after(&self, e: Edit<T>) -> SpecNode<T> {
        replace_at(self.root.spec_view(), self.pointer@, edited(self.current(), e))
    }

    /// A tree of one empty node, with the pointer at it.
    pub fn new() -> (r: TreeBuilder<T>)
        ensures
            r.wf(),
            r.root.spec_view() == (SpecNode::<T> { data: None, child: Seq::empty() }),
            r.pointer@.len() == 0,
    {
        let r = TreeBuilder { root: TreeEntity { data: None, child: Vec::new() }, pointer: Vec::new() };
        assert(r.root.spec_view().child =~= Seq::<SpecNode<T>>::empty());
        r
    }

    fn edit(&mut self, e: Edit<T>)
        requires
            old(self).wf(),
            edit_ok(old(self).current(), e),
        ensures
            final(self).root.spec_view() == old(self).after(e),
            final(self).pointer == old(self).pointer,
            final(self).wf(),
    {
        proof {
            lemma_replace_at(self.root.spec_view(), self.pointer@, edited(self.current(), e));
            assert(self.pointer@.skip(0) =~= self.pointer@);
        }
        edit_at(&mut self.root, &self.pointer, 0, e);
    }

    /// Adds a child with `data` to the current node.
    pub fn push(&mut self, data: T) -> (r: &mut TreeBuilder<T>)
        requires
            old(self).wf(),
        ensures
            r.wf(),
            r.root.spec_view() == replace_at(
                old(self).root.spec_view(),
                old(self).pointer@,
                SpecNode { data: old(self).current().data, child: old(self).current().child.push(SpecNode { data: Some(data), child: Seq::empty() }) },
            ),
            r.pointer == old(self).pointer,
            *final(self) == *final(r),
    {
        self.edit(Edit::Push(Some(data)));
        self
    }

    /// Sets the data of the current node.
    pub fn set(&mut self, data: T) -> (r: &mut TreeBuilder<T>)
        requires
            old(self).wf(),
        ensures
            r.wf(),
            r.root.spec_view() == replace_at(
                old(self).root.spec_view(),
                old(self).pointer@,
                SpecNode { data: Some(data), child: old(self).current().child },
            ),
            r.pointer == old(self).pointer,
            *final(self) == *final(r),
    {
        self.edit(Edit::Assign(data));
        self
    }

    /// Adds a child with `data` to the current node and moves the pointer to it.
    pub fn new_child(&mut self, data: T) -> (r: &mut TreeBuilder<T>)
        requires
            old(self).wf(),
        ensures
            r.wf(),
            r.root.spec_view() == replace_at(
                old(self).root.spec_view(),
                old(self).pointer@,
                SpecNode { data: old(self).current().data, child: old(self).current().child.push(SpecNode { data: Some(data), child: Seq::empty() }) },
            ),
            r.pointer@ == old(self).pointer@.push(old(self).current().child.len() as usize),
            *final(self) == *final(r),
    {
        proof {
            assert(self.pointer@.skip(0) =~= self.pointer@);
            lemma_replace_at(self.root.spec_view(), self.pointer@, edited(self.current(), Edit::Push(Some(data))));
        }
        let n = child_count(&self.root, &self.pointer, 0);
        self.edit(Edit::Push(Some(data)));
        self.pointer.push(n);
        self
    }

    /// Adds an empty child to the current node and moves the pointer to it.
    pub fn new_empty_child(&mut self) -> (r: &mut TreeBuilder<T>)
        requires
            old(self).wf(),
        ensures
            r.wf(),
            r.root.spec_view() == replace_at(
                old(self).root.spec_view(),
                old(self).pointer@,
                SpecNode { data: old(self).current().data, child: old(self).current().child.push(SpecNode { data: None, child: Seq::empty() }) },
            ),
            r.pointer@ == old(self).pointer@.push(old(self).current().child.len() as usize),
            *final(self) == *final(r),
    {
        proof {
            assert(self.pointer@.skip(0) =~= self.pointer@);
            lemma_replace_at(self.root.spec_view(), self.pointer@, edited(self.current(), Edit::Push(None)));
        }
        let n = child_count(&self.root, &self.pointer, 0);
        self.edit(Edit::Push(None));
        self.pointer.push(n);
        self
    }

    /// The number of children of the current node.
    pub fn current_count(&mut self) -> (r: usize)
        requires
            old(self).wf(),
        ensures
            r == old(self).current().child.len(),
            *final(self) == *old(self),
    {
        proof {
            assert(self.pointer@.skip(0) =~= self.pointer@);
        }
        child_count(&self.root, &self.pointer, 0)
    }

    /// Moves the pointer to child `index` of the current node.
    pub fn join_child(&mut self, index: usize) -> (r: &mut TreeBuilder<T>)
        requires
            old(self).wf(),
            index < old(self).current().child.len(),
        ensures
            r.wf(),
            r.root == old(self).root,
            r.pointer@ == old(self).pointer@.push(index),
            *final(self) == *final(r),
    {
        proof {
            lemma_path_extend(self.root.spec_view(), self.pointer@, index);
        }
        self.pointer.push(index);
        self
    }

    /// Moves the pointer to the parent of the current node.
    pub fn end_child(&mut self) -> (r: &mut TreeBuilder<T>)
        requires
            old(self).wf(),
            old(self).pointer@.len() > 0,
        ensures
            r.wf(),
            r.root == old(self).root,
            r.pointer@ == old(self).pointer@.drop_last(),
            *final(self) == *final(r),
    {
        let last = self.pointer.pop();
        proof {
            assert(old(self).pointer@ =~= self.pointer@.push(last.unwrap()));
            lemma_path_prefix(self.root.spec_view(), self.pointer@, last.unwrap());
        }
        self
    }

    /// Removes child `index` of the current node.
    pub fn remove_child(&mut self, index: usize) -> (r: &mut TreeBuilder<T>)
        requires
            old(self).wf(),
            index < old(self).current().child.len(),
        ensures
            r.wf(),
            r.root.spec_view() == replace_at(
                old(self).root.spec_view(),
                old(self).pointer@,
                SpecNode { data: old(self).current().data, child: old(self).current().child.remove(index as int) },
            ),
            r.pointer == old(self).pointer,
            *final(self) == *final(r),
    {
        self.edit(Edit::Remove(index));
        self
    }

    /// The tree, with the list of its nodes in pre-order.
    pub fn build(self) -> (r: Tree<T>)
        ensures
            r.root == self.root,
            paths_view(r.cache.list@) == preorder(self.root.spec_view(), Seq::empty()),
    {
        let cache = TreeCache::new(&self.root);
        Tree { root: self.root, cache }
    }
}

fn copy_path(p: &Vec<usize>) -> (r: Vec<usize>)
    ensures
        r@ == p@,
{
    let mut out: Vec<usize> = Vec::new();
    let mut i: usize = 0;
    while i < p.len()
        invariant
            i <= p@.len(),
            out@ == p@.take(i as int),
        decreases p@.len() - i,
    {
        out.push(p[i]);
        i = i + 1;
        assert(out@ =~= p@.take(i as int));
    }
    assert(p@.take(p@.len() as int) =~= p@);
    out
}

#[verifier::loop_isolation(false)]
fn collect_preorder<T>(node: &TreeEntity<T>, prefix: &mut Vec<usize>, out: &mut Vec<Vec<usize>>)
    ensures
        final(prefix)@ == old(prefix)@,
        paths_view(final(out)@) == paths_view(old(out)@) + preorder(node.spec_view(), old(prefix)@),
    decreases node,
{
    let ghost base = paths_view(out@);
    let ghost pre = prefix@;
    let ghost nv = node.spec_view();
    out.push(copy_path(prefix));
    assert(paths_view(out@) =~= base + seq![pre]);
    let mut i: usize = 0;
    assert(children_preorder(nv.child, pre, 0) =~= Seq::<Seq<usize>>::empty());
    while i < node.child.len()
        invariant
            i <= node.child@.len(),
            prefix@ == pre,
            paths_view(out@) =~= base + seq![pre] + children_preorder(nv.child, pre, i as int),
        decreases node.child@.len() - i,
    {
        proof {
            assert(decreases_to!(*node => node.child));
            assert(decreases_to!(node.child => node.child[i as int]));
        }
        prefix.push(i);
        let ghost before = paths_view(out@);
        collect_preorder(&node.child[i], prefix, out);
        let _ = prefix.pop();
        assert(prefix@ =~= pre);
        assert(nv.child[i as int] == node.child[i as int].spec_view());
        i = i + 1;
    }
    assert(preorder(nv, pre) == seq![pre] + children_preorder(nv.child, pre, nv.child.len() as int));
}

impl TreeCache {
    /// The paths of the nodes under `root`, in pre-order.
    pub fn new<T>(root: &TreeEntity<T>) -> (r: TreeCache)
        ensures
            paths_view(r.list@) == preorder(root.spec_view(), Seq::empty()),
    {
        let mut list: Vec<Vec<usize>> = Vec::new();
        let mut prefix: Vec<usize> = Vec::new();
        assert(paths_view(list@) =~= Seq::<Seq<usize>>::empty());
        collect_preorder(root, &mut prefix, &mut list);
        assert(paths_view(list@) =~= preorder(root.spec_view(), Seq::empty()));
        TreeCache { list }
    }
}

impl<T> Tree<T> {
    /// A builder of a new tree.
    pub fn builder() -> (r: TreeBuilder<T>)
        ensures
            r.wf(),
            r.root.spec_view() == (SpecNode::<T> { data: None, child: Seq::empty() }),
            r.pointer@.len() == 0,
    {
        TreeBuilder::new()
    }

    /// The node list matches the tree.
    pub open spec fn wf(&self) -> bool {
        paths_view(self.cache.list@) == preorder(self.root.spec_view(), Seq::empty())
    }

    /// The nodes of the tree, in pre-order.
    pub fn iter(&self) -> (r: Vec<&TreeEntity<T>>)
        requires
            self.wf(),
        ensures
            r@.len() == self.cache.list@.len(),
            forall|i: int| 0 <= i < r@.len() ==> #[trigger] r@[i].spec_view() == node_at(self.root.spec_view(), self.cache.list@[i]@),
    {
        let mut out: Vec<&TreeEntity<T>> = Vec::new();
        let mut i: usize = 0;
        while i < self.cache.list.len()
            invariant
                self.wf(),
                i <= self.cache.list@.len(),
                out@.len() == i,
                forall|k: int| 0 <= k < i ==> #[trigger] out@[k].spec_view() == node_at(self.root.spec_view(), self.cache.list@[k]@),
            decreases self.cache.list@.len() - i,
        {
            let path = &self.cache.list[i];
            proof {
                assert(path@.skip(0) =~= path@);
            }
            out.push(node_ref(&self.root, path, 0));
            i = i + 1;
        }
        out
    }
}

/// Adding a child with `d` to the node at a valid path `p` and moving down to it leads to
/// a new leaf holding `d`; moving back up (dropping the last step) leads to the node at
/// `p`, which now has that child last.
pub proof fn lemma_child_then_back<T>(n: SpecNode<T>, p: Seq<usize>, d: Option<T>)
    requires
        valid_path(n, p),
        node_at(n, p).child.len() < usize::MAX,
    ensures
        ({
            let c = node_at(n, p);
            let m = SpecNode { data: c.data, child: c.child.push(SpecNode { data: d, child: Seq::empty() }) };
            let n2 = replace_at(n, p, m);
            let q = p.push(c.child.len() as usize);
            &&& valid_path(n2, q)
            &&& node_at(n2, q) == (SpecNode::<T> { data: d, child: Seq::empty() })
            &&& q.drop_last() == p
            &&& node_at(n2, q.drop_last()) == m
        }),
{
    let c = node_at(n, p);
    let m = SpecNode { data: c.data, child: c.child.push(SpecNode { data: d, child: Seq::empty() }) };
    let k = c.child.len() as usize;
    lemma_replace_at(n, p, m);
    let n2 = replace_at(n, p, m);
    assert(valid_path(n2, p.push(k)));
    lemma_path_prefix(n2, p, k);
    assert(p.push(k).drop_last() =~= p);
}

} // verus!
