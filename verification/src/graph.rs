//! The scene graph store: an owned, rooted tree of instances.
//!
//! Nodes live in an arena; a reference is the node's slot index. Slots are
//! never reused after a destroy, so a reference stays unique for the lifetime
//! of the graph. A parent always has a smaller index than each of its
//! children, which rules out cycles.

use vstd::prelude::*;
use vstd::pervasive::VecAdditionalExecFns;
use crate::props::{PropertyValue, PropModel};

verus! {

/// One node of the scene graph.
pub struct Instance {
    /// String tag identifying the instance's type.
    pub class: String,
    /// Display name; not required to be unique among siblings.
    pub name: String,
    /// Property name to typed value, keys unique.
    pub properties: Vec<(String, PropertyValue)>,
    /// References of the children, in creation order.
    pub children: Vec<usize>,
    /// Reference of the owning instance; `None` only for the root.
    pub parent: Option<usize>,
}

/// Mathematical image of an [`Instance`].
#[verifier::ext_equal]
pub struct InstanceModel {
    pub class: Seq<char>,
    pub name: Seq<char>,
    pub properties: Seq<(Seq<char>, PropModel)>,
    pub children: Seq<int>,
    pub parent: Option<int>,
}

/// Image of a property list.
pub open spec fn pairs_model(ps: Seq<(String, PropertyValue)>) -> Seq<(Seq<char>, PropModel)> {
    ps.map_values(|p: (String, PropertyValue)| (p.0@, p.1@))
}

/// Image of a reference list.
pub open spec fn refs_model(rs: Seq<usize>) -> Seq<int> {
    rs.map_values(|r: usize| r as int)
}

impl View for Instance {
    type V = InstanceModel;

    open spec fn view(&self) -> InstanceModel {
        InstanceModel {
            class: self.class@,
            name: self.name@,
            properties: pairs_model(self.properties@),
            children: refs_model(self.children@),
            parent: match self.parent {
                Some(p) => Some(p as int),
                None => None,
            },
        }
    }
}

/// The owned scene graph.
pub struct Graph {
    /// The arena; a destroyed slot holds `None` and is never filled again.
    pub nodes: Vec<Option<Instance>>,
}

/// Mathematical image of a [`Graph`].
#[verifier::ext_equal]
pub struct GraphModel {
    pub nodes: Seq<Option<InstanceModel>>,
}

impl View for Graph {
    type V = GraphModel;

    open spec fn view(&self) -> GraphModel {
        GraphModel {
            nodes: self.nodes@.map_values(
                |n: Option<Instance>|
                    match n {
                        Some(inst) => Some(inst@),
                        None => None,
                    },
            ),
        }
    }
}

impl GraphModel {
    /// Whether `i` refers to a present, undestroyed node.
    pub open spec fn live(self, i: int) -> bool {
        0 <= i < self.nodes.len() && self.nodes[i] is Some
    }

    /// The node at `i`.
    pub open spec fn node(self, i: int) -> InstanceModel {
        self.nodes[i].unwrap()
    }

    /// The root's reference.
    pub open spec fn root() -> int {
        0
    }

    /// Well-formedness: a rooted tree whose parent and children records agree,
    /// with every parent standing at a smaller index than its children.
    pub open spec fn wf(self) -> bool {
        &&& self.nodes.len() >= 1
        &&& self.live(0)
        &&& self.node(0).parent is None
        &&& forall|i: int| #![trigger self.node(i).parent]
            self.live(i) && i != 0 ==> {
                &&& self.node(i).parent is Some
                &&& 0 <= self.node(i).parent.unwrap() < i
                &&& self.live(self.node(i).parent.unwrap())
                &&& self.node(self.node(i).parent.unwrap()).children.contains(i)
            }
        &&& forall|i: int, k: int| #![trigger self.node(i).children[k]]
            self.live(i) && 0 <= k < self.node(i).children.len() ==> {
                let c = self.node(i).children[k];
                &&& i < c < self.nodes.len()
                &&& self.live(c)
                &&& self.node(c).parent == Some(i)
            }
        &&& forall|i: int, k1: int, k2: int|
            #![trigger self.node(i).children[k1], self.node(i).children[k2]]
            self.live(i) && 0 <= k1 < k2 < self.node(i).children.len()
                ==> self.node(i).children[k1] != self.node(i).children[k2]
    }

    /// Whether `i` lies in the subtree rooted at `r`: `i` is live and its
    /// parent chain passes through `r`.
    pub open spec fn in_subtree(self, i: int, r: int) -> bool
        decreases i,
    {
        if i == r {
            self.live(i)
        } else if !self.live(i) {
            false
        } else {
            match self.node(i).parent {
                Some(p) => 0 <= p < i && self.in_subtree(p, r),
                None => false,
            }
        }
    }
}

/// First position of `x` in `s`, if any.
pub open spec fn find_first(s: Seq<int>, x: int) -> Option<int>
    decreases s,
{
    if s.len() == 0 {
        None
    } else if s[0] == x {
        Some(0)
    } else {
        match find_first(s.drop_first(), x) {
            Some(k) => Some(k + 1),
            None => None,
        }
    }
}

/// A scan that stops at the first match computes `find_first`.
pub proof fn lemma_find_first_at(s: Seq<int>, x: int, j: int)
    requires
        0 <= j < s.len(),
        s[j] == x,
        forall|k: int| 0 <= k < j ==> s[k] != x,
    ensures
        find_first(s, x) == Some(j),
    decreases j,
{
    if j > 0 {
        lemma_find_first_at(s.drop_first(), x, j - 1);
    }
}

/// The graph that follows an insertion: the new node is appended, owning no
/// children, and the parent's child list grows by the new reference.
pub open spec fn insert_model(
    g: GraphModel,
    p: int,
    class: Seq<char>,
    name: Seq<char>,
    props: Seq<(Seq<char>, PropModel)>,
) -> GraphModel {
    let n = g.nodes.len() as int;
    let parent_updated = InstanceModel {
        class: g.node(p).class,
        name: g.node(p).name,
        properties: g.node(p).properties,
        children: g.node(p).children.push(n),
        parent: g.node(p).parent,
    };
    GraphModel {
        nodes: g.nodes.update(p, Some(parent_updated)).push(
            Some(
                InstanceModel {
                    class: class,
                    name: name,
                    properties: props,
                    children: Seq::empty(),
                    parent: Some(p),
                },
            ),
        ),
    }
}

/// The graph that follows a destroy: every node of the subtree rooted at `r`
/// is gone, `r` leaves its parent's child list, and nothing else changes.
pub open spec fn destroy_model(g: GraphModel, r: int) -> GraphModel {
    GraphModel {
        nodes: Seq::new(
            g.nodes.len(),
            |i: int|
                if g.in_subtree(i, r) {
                    None
                } else if g.live(i) && g.node(i).children.contains(r) {
                    Some(
                        InstanceModel {
                            class: g.node(i).class,
                            name: g.node(i).name,
                            properties: g.node(i).properties,
                            children: g.node(i).children.remove(
                                find_first(g.node(i).children, r).unwrap(),
                            ),
                            parent: g.node(i).parent,
                        },
                    )
                } else {
                    g.nodes[i]
                },
        ),
    }
}

/// Insertion keeps the graph well formed; the new node is the appended slot.
pub proof fn lemma_insert_wf(
    g: GraphModel,
    p: int,
    class: Seq<char>,
    name: Seq<char>,
    props: Seq<(Seq<char>, PropModel)>,
)
    requires
        g.wf(),
        g.live(p),
    ensures
        insert_model(g, p, class, name, props).wf(),
{
    let n = g.nodes.len() as int;
    let g2 = insert_model(g, p, class, name, props);
    assert forall|i: int| #![trigger g2.node(i).parent] g2.live(i) && i != 0 implies {
        &&& g2.node(i).parent is Some
        &&& 0 <= g2.node(i).parent.unwrap() < i
        &&& g2.live(g2.node(i).parent.unwrap())
        &&& g2.node(g2.node(i).parent.unwrap()).children.contains(i)
    } by {
        if i == n {
            assert(g2.node(p).children[g.node(p).children.len() as int] == n);
        } else {
            assert(g.live(i));
            let q = g.node(i).parent.unwrap();
            assert(g.node(q).children.contains(i));
            let k = choose|k: int| 0 <= k < g.node(q).children.len() && g.node(q).children[k] == i;
            if q == p {
                assert(g2.node(p).children[k] == i);
            } else {
                assert(g2.node(q).children[k] == i);
            }
        }
    }
    assert forall|i: int, k: int| #![trigger g2.node(i).children[k]]
        g2.live(i) && 0 <= k < g2.node(i).children.len() implies {
        let c = g2.node(i).children[k];
        &&& i < c < g2.nodes.len()
        &&& g2.live(c)
        &&& g2.node(c).parent == Some(i)
    } by {
        if i == n {
            assert(g2.node(n).children.len() == 0);
        } else if i == p {
            if k < g.node(p).children.len() {
                assert(g.node(i).children[k] == g2.node(i).children[k]);
            }
        } else {
            assert(g.node(i).children[k] == g2.node(i).children[k]);
        }
    }
    assert forall|i: int, k1: int, k2: int|
        #![trigger g2.node(i).children[k1], g2.node(i).children[k2]]
        g2.live(i) && 0 <= k1 < k2 < g2.node(i).children.len() implies g2.node(i).children[k1]
        != g2.node(i).children[k2] by {
        if i == p {
            let old_len = g.node(p).children.len() as int;
            if k2 < old_len {
                assert(g.node(i).children[k1] != g.node(i).children[k2]);
            } else {
                assert(g2.node(i).children[k2] == n);
                if k1 < old_len {
                    assert(g.node(i).children[k1] < g.nodes.len());
                }
            }
        } else if i != n {
            assert(g.node(i).children[k1] != g.node(i).children[k2]);
        }
    }
}

impl Graph {
    /// Builds a graph holding one root node with the given class and name.
    pub fn new(class: String, name: String) -> (g: Graph)
        ensures
            g@.wf(),
            g@.nodes.len() == 1,
            g@.live(0),
            g@.node(0) == (InstanceModel {
                class: class@,
                name: name@,
                properties: Seq::<(Seq<char>, PropModel)>::empty(),
                children: Seq::<int>::empty(),
                parent: None,
            }),
    {
        let mut nodes: Vec<Option<Instance>> = Vec::new();
        nodes.push(
            Some(
                Instance {
                    class,
                    name,
                    properties: Vec::new(),
                    children: Vec::new(),
                    parent: None,
                },
            ),
        );
        let g = Graph { nodes };
        proof {
            assert(pairs_model(Seq::<(String, PropertyValue)>::empty()) =~= Seq::<
                (Seq<char>, PropModel),
            >::empty());
            assert(refs_model(Seq::<usize>::empty()) =~= Seq::<int>::empty());
        }
        g
    }

    /// How many slots the arena holds, destroyed ones included.
    pub fn node_count(&self) -> (n: usize)
        ensures
            n == self@.nodes.len(),
    {
        self.nodes.len()
    }

    /// Whether `i` refers to a present, undestroyed node.
    pub fn is_live(&self, i: usize) -> (b: bool)
        ensures
            b == self@.live(i as int),
    {
        i < self.nodes.len() && self.nodes[i].is_some()
    }

    /// The node `i` refers to.
    pub fn get_node(&self, i: usize) -> (r: &Instance)
        requires
            self@.live(i as int),
        ensures
            r@ == self@.node(i as int),
    {
        self.nodes[i].as_ref().unwrap()
    }
}

/// Copies a reference list.
fn copy_refs(v: &Vec<usize>) -> (r: Vec<usize>)
    ensures
        r@ == v@,
{
    let mut r: Vec<usize> = Vec::new();
    let mut i: usize = 0;
    while i < v.len()
        invariant
            i <= v@.len(),
            r@ == v@.subrange(0, i as int),
        decreases v@.len() - i,
    {
        r.push(v[i]);
        proof {
            assert(r@ =~= v@.subrange(0, i + 1));
        }
        i = i + 1;
    }
    proof {
        assert(v@.subrange(0, v@.len() as int) =~= v@);
    }
    r
}

/// Copies a property list, keeping its image.
fn copy_props(v: &Vec<(String, PropertyValue)>) -> (r: Vec<(String, PropertyValue)>)
    ensures
        pairs_model(r@) == pairs_model(v@),
{
    let mut r: Vec<(String, PropertyValue)> = Vec::new();
    let mut i: usize = 0;
    while i < v.len()
        invariant
            i <= v@.len(),
            pairs_model(r@) =~= pairs_model(v@.subrange(0, i as int)),
        decreases v@.len() - i,
    {
        let name = v[i].0.clone();
        let value = v[i].1.duplicate();
        proof {
            assert(name == v@[i as int].0);
            assert(value@ == v@[i as int].1@);
        }
        let ghost pre = r@;
        r.push((name, value));
        proof {
            assert(pairs_model(pre).len() == pre.len());
            assert(pre.len() == i);
            assert(r@ == pre.push((name, value)));
            assert forall|k: int| 0 <= k < i + 1 implies pairs_model(r@)[k] == pairs_model(
                v@.subrange(0, i + 1),
            )[k] by {
                if k < i {
                    assert(r@[k] == pre[k]);
                    assert(pairs_model(pre)[k] == pairs_model(v@.subrange(0, i as int))[k]);
                    assert(v@.subrange(0, i as int)[k] == v@.subrange(0, i + 1)[k]);
                } else {
                    assert(r@[k] == (name, value));
                    assert(v@.subrange(0, i + 1)[k] == v@[i as int]);
                }
            }
            assert(pairs_model(r@) =~= pairs_model(v@.subrange(0, i + 1)));
        }
        i = i + 1;
    }
    proof {
        assert(v@.subrange(0, v@.len() as int) =~= v@);
    }
    r
}

impl Graph {
    /// Creates a node under `parent` and returns its reference.
    #[verifier::spinoff_prover]
    pub fn insert(
        &mut self,
        parent: usize,
        class: String,
        name: String,
        properties: Vec<(String, PropertyValue)>,
    ) -> (r: usize)
        requires
            old(self)@.wf(),
            old(self)@.live(parent as int),
        ensures
            final(self)@ == insert_model(
                old(self)@,
                parent as int,
                class@,
                name@,
                pairs_model(properties@),
            ),
            final(self)@.wf(),
            r == old(self)@.nodes.len(),
            final(self)@.live(r as int),
    {
        let r = self.nodes.len();
        let new_parent = {
            let p = self.nodes[parent].as_ref().unwrap();
            let mut kids = copy_refs(&p.children);
            kids.push(r);
            Instance {
                class: p.class.clone(),
                name: p.name.clone(),
                properties: copy_props(&p.properties),
                children: kids,
                parent: p.parent,
            }
        };
        self.nodes.set(parent, Some(new_parent));
        self.nodes.push(
            Some(
                Instance {
                    class,
                    name,
                    properties,
                    children: Vec::new(),
                    parent: Some(parent),
                },
            ),
        );
        proof {
            let gm = insert_model(
                old(self)@,
                parent as int,
                class@,
                name@,
                pairs_model(properties@),
            );
            assert(refs_model(Seq::<usize>::empty()) =~= Seq::<int>::empty());
            assert(self@.nodes =~~= gm.nodes);
            assert(self@ == gm);
            lemma_insert_wf(
                old(self)@,
                parent as int,
                class@,
                name@,
                pairs_model(properties@),
            );
        }
        r
    }
}

/// A node of the subtree stands at or above its own index: along a parent
/// chain the indices only fall.
pub proof fn lemma_in_subtree_le(g: GraphModel, i: int, r: int)
    requires
        g.in_subtree(i, r),
    ensures
        r <= i,
        g.live(i),
        g.live(r),
    decreases (if i >= 0 { i } else { 0 }),
{
    if i != r {
        match g.node(i).parent {
            Some(p) => {
                if 0 <= p < i {
                    lemma_in_subtree_le(g, p, r);
                }
            },
            None => {},
        }
    }
}

/// Destroying a non-root subtree keeps the graph well formed.
/// A node that survives a destroy was live before, lies outside the
/// destroyed subtree, and keeps its parent record.
#[verifier::spinoff_prover]
proof fn lemma_destroy_survivors(g: GraphModel, r: int)
    requires
        g.wf(),
        g.live(r),
        r != 0,
    ensures
        destroy_model(g, r).nodes.len() == g.nodes.len(),
        forall|i: int|
            destroy_model(g, r).live(i) ==> g.live(i) && !g.in_subtree(i, r) && #[trigger] destroy_model(
                g,
                r,
            ).node(i).parent == g.node(i).parent,
{
    let g2 = destroy_model(g, r);
    assert forall|i: int| g2.live(i) implies g.live(i) && !g.in_subtree(i, r) && #[trigger] g2.node(
        i,
    ).parent == g.node(i).parent by {}
}

/// After a destroy, every survivor's parent record still points at a live
/// node that lists it.
#[verifier::spinoff_prover]
proof fn lemma_destroy_parents(g: GraphModel, r: int)
    requires
        g.wf(),
        g.live(r),
        r != 0,
    ensures
        forall|i: int| #![trigger destroy_model(g, r).node(i).parent]
            destroy_model(g, r).live(i) && i != 0 ==> {
                &&& destroy_model(g, r).node(i).parent is Some
                &&& 0 <= destroy_model(g, r).node(i).parent.unwrap() < i
                &&& destroy_model(g, r).live(destroy_model(g, r).node(i).parent.unwrap())
                &&& destroy_model(g, r).node(
                    destroy_model(g, r).node(i).parent.unwrap(),
                ).children.contains(i)
            },
{
    let g2 = destroy_model(g, r);
    let p = g.node(r).parent.unwrap();
    let kids = g.node(p).children;
    assert(kids.contains(r));
    lemma_find_first_found(kids, r);
    let j = find_first_position(kids, r);
    lemma_destroy_survivors(g, r);
    assert forall|i: int| #![trigger g2.node(i).parent] g2.live(i) && i != 0 implies {
        &&& g2.node(i).parent is Some
        &&& 0 <= g2.node(i).parent.unwrap() < i
        &&& g2.live(g2.node(i).parent.unwrap())
        &&& g2.node(g2.node(i).parent.unwrap()).children.contains(i)
    } by {
        let q = g.node(i).parent.unwrap();
        assert(g.node(q).children.contains(i));
        assert(!g.in_subtree(q, r)) by {
            if g.in_subtree(q, r) {
                assert(g.in_subtree(i, r));
            }
        }
        assert(g2.live(q));
        if q == p && g.node(q).children.contains(r) {
            let k = choose|k: int| 0 <= k < kids.len() && kids[k] == i;
            assert(i != r);
            lemma_remove_keeps_others(kids, j, k);
            assert(g2.node(q).children.contains(i));
        } else {
            assert(g2.node(q).children == g.node(q).children);
        }
    }
}

/// After a destroy, every surviving child record names a live node below
/// its parent that points back.
#[verifier::spinoff_prover]
proof fn lemma_destroy_children(g: GraphModel, r: int)
    requires
        g.wf(),
        g.live(r),
        r != 0,
    ensures
        forall|i: int, k: int| #![trigger destroy_model(g, r).node(i).children[k]]
            destroy_model(g, r).live(i) && 0 <= k < destroy_model(g, r).node(i).children.len()
                ==> {
                let c = destroy_model(g, r).node(i).children[k];
                &&& i < c < destroy_model(g, r).nodes.len()
                &&& destroy_model(g, r).live(c)
                &&& destroy_model(g, r).node(c).parent == Some(i)
            },
{
    let g2 = destroy_model(g, r);
    let p = g.node(r).parent.unwrap();
    let kids = g.node(p).children;
    assert(kids.contains(r));
    lemma_find_first_found(kids, r);
    let j = find_first_position(kids, r);
    lemma_destroy_survivors(g, r);
    assert forall|i: int, k: int| #![trigger g2.node(i).children[k]]
        g2.live(i) && 0 <= k < g2.node(i).children.len() implies {
        let c = g2.node(i).children[k];
        &&& i < c < g2.nodes.len()
        &&& g2.live(c)
        &&& g2.node(c).parent == Some(i)
    } by {
        let c = g2.node(i).children[k];
        if i == p && g.node(i).children.contains(r) {
            let k0 = if k < j { k } else { k + 1 };
            assert(c == kids[k0]);
            assert(c != r) by {
                if k0 != j {
                    assert(kids[j] == r);
                }
            }
            assert(!g.in_subtree(c, r)) by {
                assert(g.node(c).parent == Some(i));
                assert(!g.in_subtree(i, r));
            }
        } else {
            assert(g2.node(i).children == g.node(i).children);
            assert(c == g.node(i).children[k]);
            assert(c != r) by {
                if c == r {
                    assert(g.node(r).parent == Some(i));
                    assert(i == p);
                    assert(g.node(p).children.contains(r));
                }
            }
            assert(!g.in_subtree(c, r)) by {
                assert(g.node(c).parent == Some(i));
                assert(!g.in_subtree(i, r));
            }
        }
    }
}

/// Destroying a non-root subtree keeps the graph well formed.
#[verifier::spinoff_prover]
pub proof fn lemma_destroy_wf(g: GraphModel, r: int)
    requires
        g.wf(),
        g.live(r),
        r != 0,
    ensures
        destroy_model(g, r).wf(),
{
    let g2 = destroy_model(g, r);
    let p = g.node(r).parent.unwrap();
    let kids = g.node(p).children;
    assert(kids.contains(r));
    lemma_find_first_found(kids, r);
    let j = find_first_position(kids, r);
    lemma_destroy_survivors(g, r);
    lemma_destroy_parents(g, r);
    lemma_destroy_children(g, r);
    assert(!g.in_subtree(0, r)) by {
        if g.in_subtree(0, r) {
            lemma_in_subtree_le(g, 0, r);
        }
    }
    assert forall|i: int, k1: int, k2: int|
        #![trigger g2.node(i).children[k1], g2.node(i).children[k2]]
        g2.live(i) && 0 <= k1 < k2 < g2.node(i).children.len() implies g2.node(i).children[k1]
        != g2.node(i).children[k2] by {
        if i == p && g.node(i).children.contains(r) {
            let a1 = if k1 < j { k1 } else { k1 + 1 };
            let a2 = if k2 < j { k2 } else { k2 + 1 };
            assert(g2.node(i).children[k1] == kids[a1]);
            assert(g2.node(i).children[k2] == kids[a2]);
            assert(a1 < a2);
            assert(kids[a1] != kids[a2]);
        } else {
            assert(g2.node(i).children == g.node(i).children);
            assert(g.node(i).children[k1] != g.node(i).children[k2]);
        }
    }
}

/// Midway through the clearing pass: the first `i` flagged slots are gone,
/// every other slot still holds what `base` holds.
pub open spec fn cleared_up_to(
    cur: GraphModel,
    base: GraphModel,
    flags: Seq<bool>,
    i: int,
    n: int,
) -> bool {
    forall|k: int|
        0 <= k < n ==> #[trigger] cur.nodes[k] == (if k < i && flags[k] {
            None::<InstanceModel>
        } else {
            base.nodes[k]
        })
}

/// The position `find_first` names, for a sequence that contains `x`.
pub open spec fn find_first_position(s: Seq<int>, x: int) -> int {
    find_first(s, x).unwrap()
}

/// `find_first` points at the first occurrence.
pub proof fn lemma_find_first_found(s: Seq<int>, x: int)
    requires
        s.contains(x),
    ensures
        find_first(s, x) is Some,
        0 <= find_first_position(s, x) < s.len(),
        s[find_first_position(s, x)] == x,
        forall|k: int| 0 <= k < find_first_position(s, x) ==> s[k] != x,
    decreases s,
{
    if s.len() > 0 && s[0] != x {
        assert(s.drop_first().contains(x)) by {
            let w = choose|w: int| 0 <= w < s.len() && s[w] == x;
            assert(s.drop_first()[w - 1] == x);
        }
        lemma_find_first_found(s.drop_first(), x);
        assert forall|k: int| 0 <= k < find_first_position(s, x) implies s[k] != x by {
            if k > 0 {
                assert(s.drop_first()[k - 1] != x);
            }
        }
    }
}

/// Removing position `j` keeps every other element, at a shifted position.
pub proof fn lemma_remove_keeps_others(s: Seq<int>, j: int, k: int)
    requires
        0 <= j < s.len(),
        0 <= k < s.len(),
        k != j,
    ensures
        s.remove(j)[if k < j { k } else { k - 1 }] == s[k],
{
}

impl Graph {
    /// Whether `i` lies in the subtree rooted at `r`.
    pub fn in_subtree_exec(&self, i: usize, r: usize) -> (b: bool)
        ensures
            b == self@.in_subtree(i as int, r as int),
        decreases i,
    {
        if i == r {
            return self.is_live(i);
        }
        if !self.is_live(i) {
            return false;
        }
        let n = self.get_node(i);
        match n.parent {
            Some(p) => {
                if p < i {
                    self.in_subtree_exec(p, r)
                } else {
                    false
                }
            },
            None => false,
        }
    }

    /// Destroys the node `r` and its whole subtree. The root cannot be
    /// destroyed.
    #[verifier::spinoff_prover]
    pub fn destroy(&mut self, r: usize)
        requires
            old(self)@.wf(),
            old(self)@.live(r as int),
            r != 0,
        ensures
            final(self)@ == destroy_model(old(self)@, r as int),
            final(self)@.wf(),
    {
        let ghost g0 = self@;
        let n = self.nodes.len();
        // First pass: record, against the untouched graph, which nodes the
        // subtree holds.
        let mut flags: Vec<bool> = Vec::new();
        let mut i: usize = 0;
        while i < n
            invariant
                i <= n,
                n == self@.nodes.len(),
                self@ == g0,
                flags@.len() == i,
                forall|k: int| 0 <= k < i ==> flags@[k] == g0.in_subtree(k, r as int),
            decreases n - i,
        {
            let b = self.in_subtree_exec(i, r);
            flags.push(b);
            i = i + 1;
        }
        // Remove `r` from its parent's child list.
        proof {
            assert(self@ == g0);
            assert(g0.node(r as int).parent is Some);
        }
        let p = self.get_node(r).parent.unwrap();
        proof {
            assert(p as int == g0.node(r as int).parent.unwrap());
            assert(g0.node(p as int).children.contains(r as int));
            lemma_find_first_found(g0.node(p as int).children, r as int);
        }
        let j = {
            let kids: &Vec<usize> = &self.get_node(p).children;
            let mut k: usize = 0;
            let mut found: usize = 0;
            loop
                invariant_except_break
                    k <= kids@.len(),
                    forall|w: int| 0 <= w < k ==> kids@[w] != r,
                    refs_model(kids@) == g0.node(p as int).children,
                    refs_model(kids@).contains(r as int),
                ensures
                    found < kids@.len(),
                    kids@[found as int] == r,
                    forall|w: int| 0 <= w < found ==> kids@[w] != r,
                decreases kids@.len() - k,
            {
                if k >= kids.len() {
                    proof {
                        let w = choose|w: int|
                            0 <= w < refs_model(kids@).len() && refs_model(kids@)[w] == r as int;
                        assert(kids@[w] == r);
                        assert(false);
                    }
                }
                if kids[k] == r {
                    found = k;
                    break ;
                }
                k = k + 1;
            }
            found
        };
        let new_parent = {
            let pn = self.nodes[p].as_ref().unwrap();
            let mut kids = copy_refs(&pn.children);
            kids.remove(j);
            Instance {
                class: pn.class.clone(),
                name: pn.name.clone(),
                properties: copy_props(&pn.properties),
                children: kids,
                parent: pn.parent,
            }
        };
        self.nodes.set(p, Some(new_parent));
        proof {
            let kids0 = g0.node(p as int).children;
            lemma_find_first_at(kids0, r as int, j as int);
            assert(self@.node(p as int).children =~= kids0.remove(j as int));
        }
        // Second pass: clear every flagged slot.
        let ghost g1 = self@;
        let mut i: usize = 0;
        while i < n
            invariant
                i <= n,
                n == self@.nodes.len(),
                n == g1.nodes.len(),
                flags@.len() == n,
                forall|k: int| 0 <= k < n ==> flags@[k] == g0.in_subtree(k, r as int),
                cleared_up_to(self@, g1, flags@, i as int, n as int),
            decreases n - i,
        {
            let ghost prev = self@;
            if flags[i] {
                self.nodes.set(i, None);
                proof {
                    assert(self@.nodes =~= prev.nodes.update(i as int, None::<InstanceModel>));
                    assert forall|k: int| 0 <= k < n implies #[trigger] self@.nodes[k] == (if k < i
                        + 1 && flags@[k] {
                        None::<InstanceModel>
                    } else {
                        g1.nodes[k]
                    }) by {
                        if k != i {
                            assert(self@.nodes[k] == prev.nodes[k]);
                        }
                    }
                    assert(cleared_up_to(self@, g1, flags@, i + 1, n as int));
                }
            } else {
                proof {
                    assert forall|k: int| 0 <= k < n implies #[trigger] self@.nodes[k] == (if k < i
                        + 1 && flags@[k] {
                        None::<InstanceModel>
                    } else {
                        g1.nodes[k]
                    }) by {
                        assert(self@.nodes[k] == prev.nodes[k]);
                    }
                    assert(cleared_up_to(self@, g1, flags@, i + 1, n as int));
                }
            }
            i = i + 1;
        }
        proof {
            let rr = r as int;
            let pp = p as int;
            let gd = destroy_model(g0, rr);
            assert forall|k: int| 0 <= k < n implies self@.nodes[k] == gd.nodes[k] by {
                if g0.in_subtree(k, rr) {
                    assert(flags@[k]);
                } else {
                    assert(!flags@[k]);
                    if k == pp {
                        assert(g0.node(pp).children.contains(rr));
                        assert(gd.nodes[k] is Some);
                        assert(self@.nodes[k] == g1.nodes[k]);
                        assert(self@.node(pp).children == gd.node(pp).children);
                        assert(self@.node(pp) =~= gd.node(pp));
                        assert(self@.nodes[k] == gd.nodes[k]);
                    } else {
                        if g0.live(k) && g0.node(k).children.contains(rr) {
                            assert(g0.node(rr).parent == Some(k));
                            assert(k == pp);
                        }
                        assert(g1.nodes[k] == g0.nodes[k]);
                    }
                }
            }
            assert(self@.nodes =~= gd.nodes);
            assert(self@ == gd);
            lemma_destroy_wf(g0, rr);
        }
    }
}

/// Why a removal was refused.
#[derive(Clone, Copy, PartialEq, Eq, Structural, Debug)]
pub enum RemoveError {
    /// The reference names no live instance.
    NotFound,
    /// The reference names the root, which is never destroyed.
    RootRemoval,
}

/// Destroys an instance and its whole subtree. A reference that names
/// nothing is refused, as is the root; a refusal leaves the graph untouched.
pub fn remove_instance(g: &mut Graph, instance_id: usize) -> (r: Result<(), RemoveError>)
    requires
        old(g)@.wf(),
    ensures
        final(g)@.wf(),
        r is Ok <==> old(g)@.live(instance_id as int) && instance_id as int != GraphModel::root(),
        r is Ok ==> final(g)@ == destroy_model(old(g)@, instance_id as int),
        !(r is Ok) ==> final(g)@ == old(g)@,
        r == Err::<(), RemoveError>(RemoveError::NotFound) <==> !old(g)@.live(instance_id as int),
        r == Err::<(), RemoveError>(RemoveError::RootRemoval) <==> old(g)@.live(instance_id as int)
            && instance_id as int == GraphModel::root(),
{
    if !g.is_live(instance_id) {
        return Err(RemoveError::NotFound);
    }
    if instance_id == 0 {
        return Err(RemoveError::RootRemoval);
    }
    g.destroy(instance_id);
    Ok(())
}

} // verus!
