use crate::ids::ShapeId;
use vstd::prelude::*;

verus! {

/// One shape of a scene: its identity, the group that holds it (an index
/// into the same container, `None` at top level) and its own data.
pub struct ShapeNode<S> {
    pub id: ShapeId,
    pub parent: Option<usize>,
    pub shape: S,
}

/// Every parent stands before its children, so that following parents
/// always ends at a top-level shape: the parent links form a forest.
pub open spec fn parents_precede<S>(nodes: Seq<ShapeNode<S>>) -> bool {
    forall|j: int|
        0 <= j < nodes.len() ==> match #[trigger] nodes[j].parent {
            Some(p) => p < j,
            None => true,
        }
}

/// The indices below `k` whose parent is `parent`, in increasing order.
pub open spec fn members<S>(nodes: Seq<ShapeNode<S>>, parent: Option<usize>, k: int) -> Seq<usize>
    decreases k,
{
    if k <= 0 {
        Seq::empty()
    } else if nodes[k - 1].parent == parent {
        members(nodes, parent, k - 1).push((k - 1) as usize)
    } else {
        members(nodes, parent, k - 1)
    }
}

/// Shape `i`, then its group, that group's group and so on up to the
/// top-level shape that holds them all.
pub open spec fn lineage<S>(nodes: Seq<ShapeNode<S>>, i: int) -> Seq<usize>
    decreases i,
{
    if 0 <= i < nodes.len() {
        match nodes[i].parent {
            Some(p) => if p < i {
                seq![i as usize] + lineage(nodes, p as int)
            } else {
                seq![i as usize]
            },
            None => seq![i as usize],
        }
    } else {
        Seq::empty()
    }
}

/// In a well-formed container, the lineage of a shape starts at the shape,
/// goes each time to the group that holds the previous entry, and ends at a
/// top-level shape: the parent links have no cycle.
pub proof fn lemma_lineage_reaches_top_level<S>(nodes: Seq<ShapeNode<S>>, i: int)
    requires
        parents_precede(nodes),
        0 <= i < nodes.len(),
        nodes.len() <= usize::MAX,
    ensures
        lineage(nodes, i).len() >= 1,
        lineage(nodes, i)[0] == i,
        nodes[lineage(nodes, i).last() as int].parent is None,
        forall|k: int|
            0 <= k < lineage(nodes, i).len() - 1 ==> nodes[lineage(nodes, i)[k] as int].parent == Some(
                #[trigger] lineage(nodes, i)[k + 1],
            ),
        forall|k: int| 0 <= k < lineage(nodes, i).len() ==> #[trigger] lineage(nodes, i)[k] < nodes.len(),
    decreases i,
{
    let l = lineage(nodes, i);
    match nodes[i].parent {
        Some(p) => {
            assert(p < i);
            lemma_lineage_reaches_top_level(nodes, p as int);
            let rest = lineage(nodes, p as int);
            assert(l == seq![i as usize] + rest);
            assert forall|k: int| 0 <= k < l.len() - 1 implies nodes[l[k] as int].parent == Some(
                #[trigger] l[k + 1],
            ) by {
                assert(l[k + 1] == rest[k]);
                if k > 0 {
                    assert(l[k] == rest[k - 1]);
                    let j: int = k - 1;
                    assert(nodes[rest[j] as int].parent == Some(rest[j + 1]));
                } else {
                    assert(rest[0] == p);
                }
            }
            assert forall|k: int| 0 <= k < l.len() implies #[trigger] l[k] < nodes.len() by {
                if k > 0 {
                    assert(l[k] == rest[k - 1]);
                }
            }
        },
        None => {},
    }
}

/// The position of the first shape with identity `id`, if any.
pub open spec fn first_with_id<S>(nodes: Seq<ShapeNode<S>>, id: ShapeId, r: Option<usize>) -> bool {
    match r {
        None => forall|j: int| 0 <= j < nodes.len() ==> nodes[j].id != id,
        Some(i) => {
            &&& i < nodes.len()
            &&& nodes[i as int].id == id
            &&& forall|j: int| 0 <= j < i ==> nodes[j].id != id
        },
    }
}

/// The shapes of a scene, top-level shapes and the children of groups alike,
/// each named by its position. A group's children refer to it by position.
pub struct ShapeContainer<S> {
    nodes: Vec<ShapeNode<S>>,
}

impl<S> View for ShapeContainer<S> {
    type V = Seq<ShapeNode<S>>;

    closed spec fn view(&self) -> Seq<ShapeNode<S>> {
        self.nodes@
    }
}

impl<S> ShapeContainer<S> {
    pub open spec fn wf(&self) -> bool {
        parents_precede(self@)
    }

    pub fn new() -> (r: ShapeContainer<S>)
        ensures
            r.wf(),
            r@ == Seq::<ShapeNode<S>>::empty(),
    {
        ShapeContainer { nodes: Vec::new() }
    }

    /// Adds a top-level shape under a fresh identity; returns its position.
    pub fn add_shape(&mut self, shape: S) -> (r: usize)
        requires
            old(self).wf(),
            old(self)@.len() < usize::MAX,
        ensures
            final(self).wf(),
            r == old(self)@.len(),
            final(self)@ == old(self)@.push(ShapeNode { id: final(self)@[r as int].id, parent: None, shape }),
            final(self)@[r as int].id.version() == 4,
    {
        self.push_node(None, shape)
    }

    /// Adds a shape as a child of the group at position `group`, under a
    /// fresh identity; returns its position.
    pub fn add_child(&mut self, group: usize, shape: S) -> (r: usize)
        requires
            old(self).wf(),
            group < old(self)@.len(),
            old(self)@.len() < usize::MAX,
        ensures
            final(self).wf(),
            r == old(self)@.len(),
            final(self)@ == old(self)@.push(ShapeNode { id: final(self)@[r as int].id, parent: Some(group), shape }),
            final(self)@[r as int].id.version() == 4,
    {
        self.push_node(Some(group), shape)
    }

    fn push_node(&mut self, parent: Option<usize>, shape: S) -> (r: usize)
        requires
            old(self).wf(),
            old(self)@.len() < usize::MAX,
            parent matches Some(p) ==> p < old(self)@.len(),
        ensures
            final(self).wf(),
            r == old(self)@.len(),
            final(self)@ == old(self)@.push(ShapeNode { id: final(self)@[r as int].id, parent, shape }),
            final(self)@[r as int].id.version() == 4,
    {
        let r: usize = self.nodes.len();
        let id = ShapeId::new_v4();
        self.nodes.push(ShapeNode { id, parent, shape });
        proof {
            assert forall|j: int| 0 <= j < self@.len() implies match #[trigger] self@[j].parent {
                Some(p) => p < j,
                None => true,
            } by {
                if j < r {
                    assert(self@[j] == old(self)@[j]);
                }
            }
        }
        r
    }

    pub fn len(&self) -> (r: usize)
        ensures
            r == self@.len(),
    {
        self.nodes.len()
    }

    pub fn shape_at(&self, i: usize) -> (r: &S)
        requires
            i < self@.len(),
        ensures
            *r == self@[i as int].shape,
    {
        &self.nodes[i].shape
    }

    pub fn shape_at_as_mut(&mut self, i: usize) -> (r: &mut S)
        requires
            i < old(self)@.len(),
        ensures
            *r == old(self)@[i as int].shape,
            final(self)@ == old(self)@.update(
                i as int,
                ShapeNode { id: old(self)@[i as int].id, parent: old(self)@[i as int].parent, shape: *final(r) },
            ),
    {
        &mut self.nodes[i].shape
    }

    pub fn id_at(&self, i: usize) -> (r: ShapeId)
        requires
            i < self@.len(),
        ensures
            r == self@[i as int].id,
    {
        self.nodes[i].id
    }

    pub fn parent_at(&self, i: usize) -> (r: Option<usize>)
        requires
            i < self@.len(),
        ensures
            r == self@[i as int].parent,
    {
        self.nodes[i].parent
    }

    /// The position of the first shape, at any depth, whose identity is `id`.
    pub fn get_shape(&self, id: ShapeId) -> (r: Option<usize>)
        ensures
            first_with_id(self@, id, r),
    {
        let mut k: usize = 0;
        while k < self.nodes.len()
            invariant
                k <= self@.len(),
                forall|j: int| 0 <= j < k ==> self@[j].id != id,
            decreases self@.len() - k,
        {
            if self.nodes[k].id == id {
                return Some(k);
            }
            k = k + 1;
        }
        None
    }

    fn members_of(&self, parent: Option<usize>) -> (r: Vec<usize>)
        ensures
            r@ == members(self@, parent, self@.len() as int),
    {
        let mut out: Vec<usize> = Vec::new();
        let mut k: usize = 0;
        while k < self.nodes.len()
            invariant
                k <= self@.len(),
                out@ == members(self@, parent, k as int),
            decreases self@.len() - k,
        {
            if self.nodes[k].parent == parent {
                out.push(k);
            }
            k = k + 1;
        }
        out
    }

    /// The positions of the top-level shapes, in the order they were added.
    pub fn all(&self) -> (r: Vec<usize>)
        ensures
            r@ == members(self@, None, self@.len() as int),
    {
        self.members_of(None)
    }

    /// The positions of the children of the group at `group`, in the order
    /// they were added.
    pub fn children(&self, group: usize) -> (r: Vec<usize>)
        ensures
            r@ == members(self@, Some(group), self@.len() as int),
    {
        self.members_of(Some(group))
    }

    /// Shape `i` followed by each group that holds it, innermost first:
    /// converting a point into the shape's space applies their inverse
    /// transforms from the last to the first, converting a normal back out
    /// applies their inverse transposes from the first to the last.
    pub fn lineage(&self, i: usize) -> (r: Vec<usize>)
        requires
            self.wf(),
            i < self@.len(),
        ensures
            r@ == lineage(self@, i as int),
    {
        let mut out: Vec<usize> = Vec::new();
        self.push_lineage(i, &mut out);
        proof {
            assert(out@ =~= lineage(self@, i as int));
        }
        out
    }

    fn push_lineage(&self, i: usize, out: &mut Vec<usize>)
        requires
            self.wf(),
            i < self@.len(),
        ensures
            final(out)@ == old(out)@ + lineage(self@, i as int),
        decreases i,
    {
        out.push(i);
        match self.nodes[i].parent {
            Some(p) => {
                assert(self@[i as int].parent == Some(p));
                self.push_lineage(p, out);
                assert(final(out)@ =~= old(out)@ + lineage(self@, i as int));
            },
            None => {
                assert(out@ =~= old(out)@ + lineage(self@, i as int));
            },
        }
    }
}

} // verus!
