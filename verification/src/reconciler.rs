//! Keyed reconciliation of a retained native-window tree against a new view.
//!
//! The retained tree is flat and in preorder: one `NodeInfo` per view node.
//! Reconciling computes, without touching any native window, the new
//! preorder node list and the ordered list of native operations (destroy,
//! create, update) that turns the old windows into the new ones. The caller
//! performs the operations, hands back the windows that the creations
//! produced, and commits; the commit tells which parents need their child
//! z-order rewritten.
use vstd::prelude::*;
use crate::tree;
use crate::tree::{ViewNode, WidgetKind};

verus! {

/// One retained node. Virtual nodes (containers and the empty view) record
/// their parent's window and own nothing.
#[derive(Debug, Clone, Copy, PartialEq, Eq, Structural)]
pub struct NodeInfo {
    pub hwnd: usize,
    pub owns_hwnd: bool,
    pub parent_hwnd: usize,
    pub subtree_len: usize,
}

/// Where the window of a planned node comes from.
#[derive(Debug, Clone, Copy, PartialEq, Eq, Structural)]
pub enum Slot {
    /// The old window, kept and updated in place.
    Retained(usize),
    /// A window created by the plan (the n-th fresh node in preorder gets
    /// the n-th created window).
    Fresh,
    /// No window of its own.
    Virtual,
}

/// One node of a planned tree.
#[derive(Debug, Clone, Copy, PartialEq, Eq, Structural)]
pub struct PlannedNode {
    pub slot: Slot,
    pub parent_hwnd: usize,
    pub subtree_len: usize,
}

/// A native operation, in the order the plan wants them performed.
#[derive(Debug, Clone, Copy, PartialEq, Eq, Structural)]
pub enum NativeOp {
    /// Destroy the window of the old node at preorder position `old_pos`.
    Destroy { hwnd: usize, old_pos: usize },
    /// Create the window of the new node at preorder position `new_pos`
    /// under `parent`.
    Create { parent: usize, new_pos: usize },
    /// Update the retained window from the old node at `old_pos` to the new
    /// node at `new_pos`.
    Update { hwnd: usize, old_pos: usize, new_pos: usize },
}

/// The outcome of planning one reconciliation.
#[derive(Debug)]
pub struct ReconcilePlan {
    pub nodes: Vec<PlannedNode>,
    pub ops: Vec<NativeOp>,
}

/// A parent whose owned child windows must be put in the given z-order.
#[derive(Debug)]
pub struct Reorder {
    pub parent: usize,
    pub hwnds: Vec<usize>,
}

pub open spec fn opt_deref(o: Option<&ViewNode>) -> Option<ViewNode> {
    match o {
        Some(t) => Some(*t),
        None => None,
    }
}

// ---------------------------------------------------------------------------
// Mounting a fresh subtree
// ---------------------------------------------------------------------------

/// The planned nodes of a freshly mounted subtree, in preorder.
pub open spec fn mount_nodes(t: ViewNode, parent: usize) -> Seq<PlannedNode>
    decreases t, 1int,
{
    if tree::kind_is_container(t.kind) {
        seq![PlannedNode { slot: Slot::Virtual, parent_hwnd: parent, subtree_len: tree::size(t) as usize }]
            + mount_all_nodes(t.children@, parent, t.children@.len() as int)
    } else if t.kind is Empty {
        seq![PlannedNode { slot: Slot::Virtual, parent_hwnd: parent, subtree_len: 1 }]
    } else {
        seq![PlannedNode { slot: Slot::Fresh, parent_hwnd: parent, subtree_len: 1 }]
    }
}

/// The planned nodes of the first `k` sibling subtrees, freshly mounted.
pub open spec fn mount_all_nodes(s: Seq<ViewNode>, parent: usize, k: int) -> Seq<PlannedNode>
    decreases s, k,
{
    if k <= 0 || k > s.len() {
        Seq::empty()
    } else {
        mount_all_nodes(s, parent, k - 1) + mount_nodes(s[k - 1], parent)
    }
}

/// The creations of a freshly mounted subtree whose root is at `pos`.
pub open spec fn mount_ops(t: ViewNode, parent: usize, pos: int) -> Seq<NativeOp>
    decreases t, 1int,
{
    if tree::kind_is_container(t.kind) {
        mount_all_ops(t.children@, parent, pos + 1, t.children@.len() as int)
    } else if t.kind is Empty {
        Seq::empty()
    } else {
        seq![NativeOp::Create { parent, new_pos: pos as usize }]
    }
}

/// The creations of the first `k` sibling subtrees, the first at `pos`.
pub open spec fn mount_all_ops(s: Seq<ViewNode>, parent: usize, pos: int, k: int) -> Seq<NativeOp>
    decreases s, k,
{
    if k <= 0 || k > s.len() {
        Seq::empty()
    } else {
        mount_all_ops(s, parent, pos, k - 1) + mount_ops(s[k - 1], parent, pos + tree::offset(s, k - 1))
    }
}

// ---------------------------------------------------------------------------
// Destroying a retained range
// ---------------------------------------------------------------------------

/// Destruction of the owned windows of `nodes[lo..hi]`, last node first.
pub open spec fn destroy_ops(nodes: Seq<NodeInfo>, lo: int, hi: int) -> Seq<NativeOp>
    decreases hi - lo,
{
    if hi <= lo {
        Seq::empty()
    } else {
        (if nodes[hi - 1].owns_hwnd {
            seq![NativeOp::Destroy { hwnd: nodes[hi - 1].hwnd, old_pos: (hi - 1) as usize }]
        } else {
            Seq::empty()
        }) + destroy_ops(nodes, lo, hi - 1)
    }
}

// ---------------------------------------------------------------------------
// Matching new children with old children
// ---------------------------------------------------------------------------

/// The last old sibling carrying key `k`.
pub open spec fn last_key_index(s: Seq<ViewNode>, k: Seq<char>) -> Option<int>
    decreases s.len(),
{
    if s.len() == 0 {
        None
    } else if tree::key_view(s.last()) == Some(k) {
        Some(s.len() - 1)
    } else {
        last_key_index(s.drop_last(), k)
    }
}

/// The old sibling that new child `j` takes over: for a keyed child the old
/// sibling with the same key; for an unkeyed child the old sibling at the
/// same index, provided that one is unkeyed too.
pub open spec fn match_old(olds: Seq<ViewNode>, news: Seq<ViewNode>, j: int) -> Option<int> {
    match tree::key_view(news[j]) {
        Some(k) => last_key_index(olds, k),
        None => if 0 <= j < olds.len() && olds[j].key is None {
            Some(j)
        } else {
            None
        },
    }
}

/// Old sibling `i` is taken over by some new sibling.
pub open spec fn matched(olds: Seq<ViewNode>, news: Seq<ViewNode>, i: int) -> bool {
    exists|j: int| 0 <= j < news.len() && match_old(olds, news, j) == Some(i)
}

/// An old node is kept (and updated) when it has the same key and the same
/// kind as the new node.
pub open spec fn can_update(old: Option<ViewNode>, new: ViewNode) -> bool {
    &&& old is Some
    &&& tree::key_view(old.unwrap()) == tree::key_view(new)
    &&& old.unwrap().kind == new.kind
}

// ---------------------------------------------------------------------------
// The plan
// ---------------------------------------------------------------------------

/// The planned nodes for `new`, given the old node it takes over (whose
/// retained nodes start at `lo`).
pub open spec fn plan_nodes(
    parent: usize,
    old: Option<ViewNode>,
    new: ViewNode,
    onodes: Seq<NodeInfo>,
    lo: int,
) -> Seq<PlannedNode>
    decreases new, 1int,
{
    if !can_update(old, new) {
        mount_nodes(new, parent)
    } else if tree::kind_is_container(new.kind) {
        seq![PlannedNode { slot: Slot::Virtual, parent_hwnd: parent, subtree_len: tree::size(new) as usize }]
            + plan_children_nodes(
            parent,
            old.unwrap().children@,
            new.children@,
            onodes,
            lo + 1,
            new.children@.len() as int,
        )
    } else if new.kind is Empty {
        seq![PlannedNode { slot: Slot::Virtual, parent_hwnd: parent, subtree_len: 1 }]
    } else {
        seq![PlannedNode { slot: Slot::Retained(onodes[lo].hwnd), parent_hwnd: parent, subtree_len: 1 }]
    }
}

/// The planned nodes of the first `k` new children, whose old siblings are
/// retained from `olo` on.
pub open spec fn plan_children_nodes(
    parent: usize,
    olds: Seq<ViewNode>,
    news: Seq<ViewNode>,
    onodes: Seq<NodeInfo>,
    olo: int,
    k: int,
) -> Seq<PlannedNode>
    decreases news, k,
{
    if k <= 0 || k > news.len() {
        Seq::empty()
    } else {
        plan_children_nodes(parent, olds, news, onodes, olo, k - 1) + match match_old(
            olds,
            news,
            k - 1,
        ) {
            Some(i) => plan_nodes(parent, Some(olds[i]), news[k - 1], onodes, olo + tree::offset(olds, i)),
            None => plan_nodes(parent, None, news[k - 1], onodes, 0),
        }
    }
}

/// The native operations for `new` at preorder position `pos`, given the
/// old node it takes over, retained at `onodes[lo..hi]`.
pub open spec fn plan_ops(
    parent: usize,
    old: Option<ViewNode>,
    new: ViewNode,
    onodes: Seq<NodeInfo>,
    lo: int,
    hi: int,
    pos: int,
) -> Seq<NativeOp>
    decreases new, 1int,
{
    if !can_update(old, new) {
        destroy_ops(onodes, lo, hi) + mount_ops(new, parent, pos)
    } else if tree::kind_is_container(new.kind) {
        plan_children_ops(
            parent,
            old.unwrap().children@,
            new.children@,
            onodes,
            lo + 1,
            pos + 1,
            new.children@.len() as int,
        ) + unused_ops(
            old.unwrap().children@,
            new.children@,
            onodes,
            lo + 1,
            old.unwrap().children@.len() as int,
        )
    } else if new.kind is Empty {
        Seq::empty()
    } else {
        seq![NativeOp::Update { hwnd: onodes[lo].hwnd, old_pos: lo as usize, new_pos: pos as usize }]
    }
}

/// The native operations of the first `k` new children, the first at `cpos`.
pub open spec fn plan_children_ops(
    parent: usize,
    olds: Seq<ViewNode>,
    news: Seq<ViewNode>,
    onodes: Seq<NodeInfo>,
    olo: int,
    cpos: int,
    k: int,
) -> Seq<NativeOp>
    decreases news, k,
{
    if k <= 0 || k > news.len() {
        Seq::empty()
    } else {
        plan_children_ops(parent, olds, news, onodes, olo, cpos, k - 1) + match match_old(
            olds,
            news,
            k - 1,
        ) {
            Some(i) => plan_ops(
                parent,
                Some(olds[i]),
                news[k - 1],
                onodes,
                olo + tree::offset(olds, i),
                olo + tree::offset(olds, i + 1),
                cpos + tree::offset(news, k - 1),
            ),
            None => plan_ops(parent, None, news[k - 1], onodes, 0, 0, cpos + tree::offset(news, k - 1)),
        }
    }
}

/// Destruction of the first `k` old children that no new child took over.
pub open spec fn unused_ops(
    olds: Seq<ViewNode>,
    news: Seq<ViewNode>,
    onodes: Seq<NodeInfo>,
    olo: int,
    k: int,
) -> Seq<NativeOp>
    decreases k,
{
    if k <= 0 {
        Seq::empty()
    } else {
        unused_ops(olds, news, onodes, olo, k - 1) + if matched(olds, news, k - 1) {
            Seq::empty()
        } else {
            destroy_ops(onodes, olo + tree::offset(olds, k - 1), olo + tree::offset(olds, k))
        }
    }
}

// ---------------------------------------------------------------------------
// Retained nodes that describe a view
// ---------------------------------------------------------------------------

/// The (subtree length, owns a window) shape of each retained node.
pub open spec fn shape(nodes: Seq<NodeInfo>) -> Seq<(usize, bool)> {
    nodes.map_values(|n: NodeInfo| (n.subtree_len, n.owns_hwnd))
}

/// The (subtree length, owns a window) shape of each planned node.
pub open spec fn plan_shape(ps: Seq<PlannedNode>) -> Seq<(usize, bool)> {
    ps.map_values(|p: PlannedNode| (p.subtree_len, !(p.slot is Virtual)))
}

/// `sh[lo..]` holds, in preorder, one entry per node of `t`, each with the
/// size of its subtree; exactly the nodes of non-virtual kinds own a window.
pub open spec fn fits(t: ViewNode, sh: Seq<(usize, bool)>, lo: int) -> bool
    decreases t, 1int,
{
    &&& 0 <= lo
    &&& lo + tree::size(t) <= sh.len()
    &&& sh[lo].0 == tree::size(t)
    &&& sh[lo].1 == !tree::kind_is_virtual(t.kind)
    &&& tree::kind_is_container(t.kind) ==> fits_all(t.children@, sh, lo + 1, t.children@.len() as int)
}

/// The first `k` siblings fit the shape from `lo` on.
pub open spec fn fits_all(s: Seq<ViewNode>, sh: Seq<(usize, bool)>, lo: int, k: int) -> bool
    decreases s, k,
{
    if k <= 0 || k > s.len() {
        true
    } else {
        fits_all(s, sh, lo, k - 1) && fits(s[k - 1], sh, lo + tree::offset(s, k - 1))
    }
}

/// `nodes[lo..]` describes the subtree `t` (see `fits`).
pub open spec fn consistent(t: ViewNode, nodes: Seq<NodeInfo>, lo: int) -> bool {
    fits(t, shape(nodes), lo)
}

/// The first `k` siblings are described by the nodes from `lo` on.
pub open spec fn consistent_all(s: Seq<ViewNode>, nodes: Seq<NodeInfo>, lo: int, k: int) -> bool {
    fits_all(s, shape(nodes), lo, k)
}

/// The retained node list describes exactly the view `t`.
pub open spec fn describes(t: ViewNode, nodes: Seq<NodeInfo>) -> bool {
    nodes.len() == tree::size(t) && consistent(t, nodes, 0)
}

// ---------------------------------------------------------------------------
// Lengths
// ---------------------------------------------------------------------------

pub proof fn lemma_mount_nodes_len(t: ViewNode, parent: usize)
    ensures
        mount_nodes(t, parent).len() == tree::size(t),
    decreases t, 1int,
{
    if tree::kind_is_container(t.kind) {
        lemma_mount_all_nodes_len(t.children@, parent, t.children@.len() as int);
        tree::lemma_sizes_take_all(t.children@);
    }
}

pub proof fn lemma_mount_all_nodes_len(s: Seq<ViewNode>, parent: usize, k: int)
    requires
        0 <= k <= s.len(),
    ensures
        mount_all_nodes(s, parent, k).len() == tree::offset(s, k),
    decreases s, k,
{
    if k > 0 {
        lemma_mount_all_nodes_len(s, parent, k - 1);
        lemma_mount_nodes_len(s[k - 1], parent);
        tree::lemma_sizes_take_step(s, k - 1);
    } else {
        assert(s.take(0) =~= Seq::<ViewNode>::empty());
    }
}

pub proof fn lemma_plan_nodes_len(
    parent: usize,
    old: Option<ViewNode>,
    new: ViewNode,
    onodes: Seq<NodeInfo>,
    lo: int,
)
    ensures
        plan_nodes(parent, old, new, onodes, lo).len() == tree::size(new),
    decreases new, 1int,
{
    if !can_update(old, new) {
        lemma_mount_nodes_len(new, parent);
    } else if tree::kind_is_container(new.kind) {
        lemma_plan_children_nodes_len(
            parent,
            old.unwrap().children@,
            new.children@,
            onodes,
            lo + 1,
            new.children@.len() as int,
        );
        tree::lemma_sizes_take_all(new.children@);
    }
}

pub proof fn lemma_plan_children_nodes_len(
    parent: usize,
    olds: Seq<ViewNode>,
    news: Seq<ViewNode>,
    onodes: Seq<NodeInfo>,
    olo: int,
    k: int,
)
    requires
        0 <= k <= news.len(),
    ensures
        plan_children_nodes(parent, olds, news, onodes, olo, k).len() == tree::offset(news, k),
    decreases news, k,
{
    if k > 0 {
        lemma_plan_children_nodes_len(parent, olds, news, onodes, olo, k - 1);
        match match_old(olds, news, k - 1) {
            Some(i) => lemma_plan_nodes_len(parent, Some(olds[i]), news[k - 1], onodes, olo + tree::offset(olds, i)),
            None => lemma_plan_nodes_len(parent, None, news[k - 1], onodes, 0),
        }
        tree::lemma_sizes_take_step(news, k - 1);
    } else {
        assert(news.take(0) =~= Seq::<ViewNode>::empty());
    }
}


// ---------------------------------------------------------------------------
// Supporting facts
// ---------------------------------------------------------------------------

pub proof fn lemma_destroy_split(nodes: Seq<NodeInfo>, lo: int, mid: int, hi: int)
    requires
        lo <= mid <= hi,
    ensures
        destroy_ops(nodes, lo, hi) == destroy_ops(nodes, mid, hi) + destroy_ops(nodes, lo, mid),
    decreases hi - mid,
{
    if mid < hi {
        lemma_destroy_split(nodes, lo, mid, hi - 1);
        assert(destroy_ops(nodes, mid, hi) == (if nodes[hi - 1].owns_hwnd {
            seq![NativeOp::Destroy { hwnd: nodes[hi - 1].hwnd, old_pos: (hi - 1) as usize }]
        } else {
            Seq::<NativeOp>::empty()
        }) + destroy_ops(nodes, mid, hi - 1));
        assert(destroy_ops(nodes, lo, hi) == (if nodes[hi - 1].owns_hwnd {
            seq![NativeOp::Destroy { hwnd: nodes[hi - 1].hwnd, old_pos: (hi - 1) as usize }]
        } else {
            Seq::<NativeOp>::empty()
        }) + destroy_ops(nodes, lo, hi - 1));
        assert(destroy_ops(nodes, lo, hi) =~= destroy_ops(nodes, mid, hi) + destroy_ops(nodes, lo, mid));
    } else {
        assert(destroy_ops(nodes, mid, hi) =~= Seq::<NativeOp>::empty());
        assert(destroy_ops(nodes, lo, hi) =~= destroy_ops(nodes, mid, hi) + destroy_ops(nodes, lo, mid));
    }
}

pub proof fn lemma_last_key_index_bound(s: Seq<ViewNode>, k: Seq<char>)
    ensures
        last_key_index(s, k) matches Some(i) ==> 0 <= i < s.len() && tree::key_view(s[i]) == Some(k),
    decreases s.len(),
{
    if s.len() > 0 && tree::key_view(s.last()) != Some(k) {
        lemma_last_key_index_bound(s.drop_last(), k);
    }
}

pub proof fn lemma_match_old_bound(olds: Seq<ViewNode>, news: Seq<ViewNode>, j: int)
    requires
        0 <= j < news.len(),
    ensures
        match_old(olds, news, j) matches Some(i) ==> 0 <= i < olds.len(),
{
    if let Some(k) = tree::key_view(news[j]) {
        lemma_last_key_index_bound(olds, k);
    }
}

pub proof fn lemma_consistent_all_get(s: Seq<ViewNode>, nodes: Seq<NodeInfo>, lo: int, k: int, i: int)
    requires
        consistent_all(s, nodes, lo, k),
        0 <= i < k <= s.len(),
    ensures
        consistent(s[i], nodes, lo + tree::offset(s, i)),
    decreases k,
{
    if i < k - 1 {
        lemma_consistent_all_get(s, nodes, lo, k - 1, i);
    }
}

// ---------------------------------------------------------------------------
// Planning
// ---------------------------------------------------------------------------

/// Destroys the owned windows of `onodes[lo..hi]`, last node first.
fn destroy_range(onodes: &Vec<NodeInfo>, lo: usize, hi: usize, ops: &mut Vec<NativeOp>)
    requires
        lo <= hi <= onodes@.len(),
    ensures
        final(ops)@ == old(ops)@ + destroy_ops(onodes@, lo as int, hi as int),
{
    let mut i = hi;
    while i > lo
        invariant
            lo <= i <= hi <= onodes@.len(),
            ops@ == old(ops)@ + destroy_ops(onodes@, i as int, hi as int),
        decreases i,
    {
        let ghost before = ops@;
        proof {
            lemma_destroy_split(onodes@, (i - 1) as int, i as int, hi as int);
        }
        if onodes[i - 1].owns_hwnd {
            ops.push(NativeOp::Destroy { hwnd: onodes[i - 1].hwnd, old_pos: i - 1 });
        }
        i = i - 1;
        proof {
            assert(destroy_ops(onodes@, i as int, i as int) =~= Seq::<NativeOp>::empty());
            assert(destroy_ops(onodes@, i as int, (i + 1) as int) =~= (if onodes@[i as int].owns_hwnd {
                seq![NativeOp::Destroy { hwnd: onodes@[i as int].hwnd, old_pos: i as usize }]
            } else {
                Seq::<NativeOp>::empty()
            }));
            assert(ops@ =~= old(ops)@ + destroy_ops(onodes@, i as int, hi as int));
        }
    }
}

/// Plans a fresh mount of `t` at preorder position `pos`.
fn mount(parent: usize, t: &ViewNode, pos: usize, nodes: &mut Vec<PlannedNode>, ops: &mut Vec<NativeOp>)
    requires
        pos + tree::size(*t) <= usize::MAX,
    ensures
        final(nodes)@ == old(nodes)@ + mount_nodes(*t, parent),
        final(ops)@ == old(ops)@ + mount_ops(*t, parent, pos as int),
    decreases *t,
{
    if t.kind.is_container() {
        let start = nodes.len();
        nodes.push(PlannedNode { slot: Slot::Virtual, parent_hwnd: parent, subtree_len: 0 });
        let ghost nodes0 = nodes@;
        let ghost ops0 = ops@;
        let n = t.children.len();
        let mut j: usize = 0;
        proof {
            tree::lemma_sizes_take_all(t.children@);
            assert(mount_all_nodes(t.children@, parent, 0) =~= Seq::<PlannedNode>::empty());
            assert(mount_all_ops(t.children@, parent, pos + 1, 0) =~= Seq::<NativeOp>::empty());
        }
        while j < n
            invariant
                n == t.children@.len(),
                0 <= j <= n,
                start + 1 == nodes0.len(),
                pos + tree::size(*t) <= usize::MAX,
                tree::kind_is_container(t.kind),
                tree::offset(t.children@, n as int) == tree::sizes(t.children@),
                tree::size(*t) == 1 + tree::sizes(t.children@),
                nodes@ == nodes0 + mount_all_nodes(t.children@, parent, j as int),
                ops@ == ops0 + mount_all_ops(t.children@, parent, pos + 1, j as int),
            decreases n - j,
        {
            proof {
                lemma_mount_all_nodes_len(t.children@, parent, j as int);
                tree::lemma_sizes_take_step(t.children@, j as int);
                tree::lemma_offset_mono(t.children@, j + 1, n as int);
            }
            let child_pos = pos + 1 + (nodes.len() - start - 1);
            mount(parent, &t.children[j], child_pos, nodes, ops);
            j = j + 1;
            proof {
                assert(nodes@ =~= nodes0 + mount_all_nodes(t.children@, parent, j as int));
                assert(ops@ =~= ops0 + mount_all_ops(t.children@, parent, pos + 1, j as int));
            }
        }
        proof {
            lemma_mount_all_nodes_len(t.children@, parent, n as int);
        }
        let len = nodes.len() - start;
        nodes.set(start, PlannedNode { slot: Slot::Virtual, parent_hwnd: parent, subtree_len: len });
        proof {
            assert(nodes@ =~= old(nodes)@ + mount_nodes(*t, parent));
            assert(ops@ =~= old(ops)@ + mount_ops(*t, parent, pos as int));
        }
    } else if t.kind == WidgetKind::Empty {
        nodes.push(PlannedNode { slot: Slot::Virtual, parent_hwnd: parent, subtree_len: 1 });
        proof {
            assert(ops@ =~= old(ops)@ + mount_ops(*t, parent, pos as int));
        }
    } else {
        nodes.push(PlannedNode { slot: Slot::Fresh, parent_hwnd: parent, subtree_len: 1 });
        ops.push(NativeOp::Create { parent, new_pos: pos });
    }
}


/// The index of the last old sibling whose key is `k`.
fn find_last_key(olds: &Vec<ViewNode>, k: &String) -> (r: Option<usize>)
    ensures
        match r {
            Some(i) => last_key_index(olds@, k@) == Some(i as int),
            None => last_key_index(olds@, k@) is None,
        },
{
    let mut found: Option<usize> = None;
    let mut i: usize = 0;
    proof {
        assert(olds@.take(0) =~= Seq::<ViewNode>::empty());
    }
    while i < olds.len()
        invariant
            0 <= i <= olds@.len(),
            match found {
                Some(f) => last_key_index(olds@.take(i as int), k@) == Some(f as int),
                None => last_key_index(olds@.take(i as int), k@) is None,
            },
        decreases olds@.len() - i,
    {
        let is_match = match &olds[i].key {
            Some(x) => *x == *k,
            None => false,
        };
        if is_match {
            found = Some(i);
        }
        proof {
            let t = olds@.take(i + 1);
            assert(t.drop_last() =~= olds@.take(i as int));
            assert(t.last() == olds@[i as int]);
        }
        i = i + 1;
    }
    proof {
        assert(olds@.take(olds@.len() as int) =~= olds@);
    }
    found
}

/// The old sibling that new child `j` takes over.
fn find_match(olds: &Vec<ViewNode>, news: &Vec<ViewNode>, j: usize) -> (r: Option<usize>)
    requires
        j < news@.len(),
    ensures
        match r {
            Some(i) => match_old(olds@, news@, j as int) == Some(i as int),
            None => match_old(olds@, news@, j as int) is None,
        },
{
    match &news[j].key {
        Some(k) => find_last_key(olds, k),
        None => {
            if j < olds.len() && olds[j].key.is_none() {
                Some(j)
            } else {
                None
            }
        },
    }
}

/// Plans the reconciliation of `new` (at preorder position `pos`) against the
/// old node it takes over, retained at `onodes[lo..hi]`.
/// Whether `new` takes over the windows of `old`: same key and same kind.
pub fn takes_over(old: &ViewNode, new: &ViewNode) -> (r: bool)
    ensures
        r == can_update(Some(*old), *new),
{
    tree::key_eq(&old.key, &new.key) && old.kind == new.kind
}

fn plan_node(
    parent: usize,
    prev: Option<&ViewNode>,
    new: &ViewNode,
    onodes: &Vec<NodeInfo>,
    lo: usize,
    hi: usize,
    pos: usize,
    nodes: &mut Vec<PlannedNode>,
    ops: &mut Vec<NativeOp>,
)
    requires
        lo <= hi <= onodes@.len(),
        prev matches Some(o) ==> consistent(*o, onodes@, lo as int) && hi == lo + tree::size(*o),
        pos + tree::size(*new) <= usize::MAX,
    ensures
        final(nodes)@ == old(nodes)@ + plan_nodes(parent, opt_deref(prev), *new, onodes@, lo as int),
        final(ops)@ == old(ops)@ + plan_ops(
            parent,
            opt_deref(prev),
            *new,
            onodes@,
            lo as int,
            hi as int,
            pos as int,
        ),
    decreases *new, 1int,
{
    let can = match prev {
        Some(o) => takes_over(o, new),
        None => false,
    };
    if !can {
        destroy_range(onodes, lo, hi, ops);
        mount(parent, new, pos, nodes, ops);
        proof {
            assert(ops@ =~= old(ops)@ + plan_ops(
                parent,
                opt_deref(prev),
                *new,
                onodes@,
                lo as int,
                hi as int,
                pos as int,
            ));
        }
        return;
    }
    let o = prev.unwrap();
    if new.kind.is_container() {
        let start = nodes.len();
        nodes.push(PlannedNode { slot: Slot::Virtual, parent_hwnd: parent, subtree_len: 0 });
        let ghost nodes1 = nodes@;
        let ghost ops1 = ops@;
        proof {
            tree::lemma_sizes_take_all(new.children@);
        }
        plan_children(parent, &o.children, &new.children, onodes, lo + 1, pos + 1, nodes, ops);
        proof {
            lemma_plan_children_nodes_len(
                parent,
                o.children@,
                new.children@,
                onodes@,
                lo + 1,
                new.children@.len() as int,
            );
        }
        let len = nodes.len() - start;
        nodes.set(start, PlannedNode { slot: Slot::Virtual, parent_hwnd: parent, subtree_len: len });
        proof {
            assert(nodes@ =~= old(nodes)@ + plan_nodes(parent, opt_deref(prev), *new, onodes@, lo as int));
            assert(ops@ =~= old(ops)@ + plan_ops(
                parent,
                opt_deref(prev),
                *new,
                onodes@,
                lo as int,
                hi as int,
                pos as int,
            ));
        }
    } else if new.kind == WidgetKind::Empty {
        nodes.push(PlannedNode { slot: Slot::Virtual, parent_hwnd: parent, subtree_len: 1 });
        proof {
            assert(ops@ =~= old(ops)@ + plan_ops(
                parent,
                opt_deref(prev),
                *new,
                onodes@,
                lo as int,
                hi as int,
                pos as int,
            ));
        }
    } else {
        let h = onodes[lo].hwnd;
        nodes.push(PlannedNode { slot: Slot::Retained(h), parent_hwnd: parent, subtree_len: 1 });
        ops.push(NativeOp::Update { hwnd: h, old_pos: lo, new_pos: pos });
    }
}

/// Plans the children of a kept container: each new child takes over its
/// matching old sibling (or is mounted fresh), then the old siblings that
/// nobody took over are destroyed in order.
fn plan_children(
    parent: usize,
    olds: &Vec<ViewNode>,
    news: &Vec<ViewNode>,
    onodes: &Vec<NodeInfo>,
    olo: usize,
    cpos: usize,
    nodes: &mut Vec<PlannedNode>,
    ops: &mut Vec<NativeOp>,
)
    requires
        consistent_all(olds@, onodes@, olo as int, olds@.len() as int),
        olo + tree::sizes(olds@) <= onodes@.len(),
        cpos + tree::sizes(news@) <= usize::MAX,
    ensures
        final(nodes)@ == old(nodes)@ + plan_children_nodes(
            parent,
            olds@,
            news@,
            onodes@,
            olo as int,
            news@.len() as int,
        ),
        final(ops)@ == old(ops)@ + plan_children_ops(
            parent,
            olds@,
            news@,
            onodes@,
            olo as int,
            cpos as int,
            news@.len() as int,
        ) + unused_ops(olds@, news@, onodes@, olo as int, olds@.len() as int),
    decreases *news, 0int,
{
    let on = olds.len();
    let nn = news.len();
    let onl = onodes.len();
    // Start of each old child's retained range (and the end of the last).
    let mut starts: Vec<usize> = Vec::new();
    let mut at = olo;
    let mut i: usize = 0;
    proof {
        tree::lemma_sizes_take_all(olds@);
        tree::lemma_sizes_take_all(news@);
        assert(olds@.take(0) =~= Seq::<ViewNode>::empty());
    }
    while i < on
        invariant
            on == olds@.len(),
            0 <= i <= on,
            starts@.len() == i,
            forall|m: int| 0 <= m < i ==> starts@[m] == olo + tree::offset(olds@, m),
            at == olo + tree::offset(olds@, i as int),
            consistent_all(olds@, onodes@, olo as int, on as int),
            tree::offset(olds@, on as int) == tree::sizes(olds@),
            olo + tree::sizes(olds@) <= onodes@.len(),
            onl == onodes@.len(),
        decreases on - i,
    {
        proof {
            lemma_consistent_all_get(olds@, onodes@, olo as int, on as int, i as int);
            tree::lemma_sizes_take_step(olds@, i as int);
            tree::lemma_offset_mono(olds@, i + 1, on as int);
            assert(consistent(olds@[i as int], onodes@, at as int));
            assert(shape(onodes@)[at as int] == (onodes@[at as int].subtree_len, onodes@[at as int].owns_hwnd));
            assert(onodes@[at as int].subtree_len == tree::size(olds@[i as int]));
            assert(at + tree::size(olds@[i as int]) == olo + tree::offset(olds@, i + 1));
            assert(olo + tree::offset(olds@, i + 1) <= onodes@.len());
        }
        starts.push(at);
        at = at + onodes[at].subtree_len;
        i = i + 1;
    }
    starts.push(at);
    let mut used: Vec<bool> = Vec::new();
    let mut u: usize = 0;
    while u < on
        invariant
            0 <= u <= on,
            used@.len() == u,
            forall|m: int| 0 <= m < u ==> !used@[m],
        decreases on - u,
    {
        used.push(false);
        u = u + 1;
    }
    let start = nodes.len();
    let ghost nodes0 = nodes@;
    let ghost ops0 = ops@;
    let mut j: usize = 0;
    proof {
        assert(news@.take(0) =~= Seq::<ViewNode>::empty());
        lemma_plan_children_nodes_len(parent, olds@, news@, onodes@, olo as int, 0);
    }
    while j < nn
        invariant
            on == olds@.len(),
            nn == news@.len(),
            0 <= j <= nn,
            starts@.len() == on + 1,
            forall|m: int| 0 <= m <= on ==> starts@[m] == olo + tree::offset(olds@, m),
            used@.len() == on,
            forall|m: int|
                0 <= m < on ==> (used@[m] <==> exists|jj: int|
                    0 <= jj < j && match_old(olds@, news@, jj) == Some(m)),
            consistent_all(olds@, onodes@, olo as int, on as int),
            tree::offset(olds@, on as int) == tree::sizes(olds@),
            tree::offset(news@, nn as int) == tree::sizes(news@),
            olo + tree::sizes(olds@) <= onodes@.len(),
            cpos + tree::sizes(news@) <= usize::MAX,
            start == nodes0.len(),
            nodes@.len() == start + tree::offset(news@, j as int),
            nodes@ == nodes0 + plan_children_nodes(parent, olds@, news@, onodes@, olo as int, j as int),
            ops@ == ops0 + plan_children_ops(
                parent,
                olds@,
                news@,
                onodes@,
                olo as int,
                cpos as int,
                j as int,
            ),
        decreases nn - j,
    {
        proof {
            tree::lemma_sizes_take_step(news@, j as int);
            tree::lemma_offset_mono(news@, j + 1, nn as int);
            lemma_match_old_bound(olds@, news@, j as int);
        }
        let child_pos = cpos + (nodes.len() - start);
        let m = find_match(olds, news, j);
        match m {
            Some(oi) => {
                proof {
                    lemma_consistent_all_get(olds@, onodes@, olo as int, on as int, oi as int);
                    tree::lemma_sizes_take_step(olds@, oi as int);
                    tree::lemma_offset_mono(olds@, oi + 1, on as int);
                }
                used.set(oi, true);
                plan_node(
                    parent,
                    Some(&olds[oi]),
                    &news[j],
                    onodes,
                    starts[oi],
                    starts[oi + 1],
                    child_pos,
                    nodes,
                    ops,
                );
            },
            None => {
                plan_node(parent, None, &news[j], onodes, 0, 0, child_pos, nodes, ops);
            },
        }
        proof {
            match match_old(olds@, news@, j as int) {
                Some(oi) => lemma_plan_nodes_len(
                    parent,
                    Some(olds@[oi]),
                    news@[j as int],
                    onodes@,
                    olo + tree::offset(olds@, oi),
                ),
                None => lemma_plan_nodes_len(parent, None, news@[j as int], onodes@, 0),
            }
            assert forall|mm: int|
                0 <= mm < on implies (used@[mm] <==> exists|jj: int|
                    0 <= jj < j + 1 && match_old(olds@, news@, jj) == Some(mm)) by {
                if used@[mm] && !(exists|jj: int| 0 <= jj < j && match_old(olds@, news@, jj) == Some(mm)) {
                    assert(match_old(olds@, news@, j as int) == Some(mm));
                }
                if exists|jj: int| 0 <= jj < j + 1 && match_old(olds@, news@, jj) == Some(mm) {
                    let jj = choose|jj: int| 0 <= jj < j + 1 && match_old(olds@, news@, jj) == Some(mm);
                    if jj < j {
                    } else {
                        assert(jj == j);
                    }
                }
            }
        }
        j = j + 1;
        proof {
            assert(nodes@ =~= nodes0 + plan_children_nodes(parent, olds@, news@, onodes@, olo as int, j as int));
            assert(ops@ =~= ops0 + plan_children_ops(
                parent,
                olds@,
                news@,
                onodes@,
                olo as int,
                cpos as int,
                j as int,
            ));
        }
    }
    let ghost ops2 = ops@;
    let mut k: usize = 0;
    proof {
        assert(unused_ops(olds@, news@, onodes@, olo as int, 0) =~= Seq::<NativeOp>::empty());
    }
    while k < on
        invariant
            on == olds@.len(),
            nn == news@.len(),
            0 <= k <= on,
            starts@.len() == on + 1,
            forall|m: int| 0 <= m <= on ==> starts@[m] == olo + tree::offset(olds@, m),
            used@.len() == on,
            forall|m: int| 0 <= m < on ==> (used@[m] <==> matched(olds@, news@, m)),
            tree::offset(olds@, on as int) == tree::sizes(olds@),
            olo + tree::sizes(olds@) <= onodes@.len(),
            ops@ == ops2 + unused_ops(olds@, news@, onodes@, olo as int, k as int),
        decreases on - k,
    {
        proof {
            tree::lemma_offset_mono(olds@, k as int, k + 1);
            tree::lemma_offset_mono(olds@, k + 1, on as int);
        }
        if !used[k] {
            destroy_range(onodes, starts[k], starts[k + 1], ops);
        }
        k = k + 1;
        proof {
            assert(ops@ =~= ops2 + unused_ops(olds@, news@, onodes@, olo as int, k as int));
        }
    }
}


// ---------------------------------------------------------------------------
// Committing a plan
// ---------------------------------------------------------------------------

/// Number of fresh nodes in a planned node list.
pub open spec fn fresh_count(ps: Seq<PlannedNode>) -> nat
    decreases ps.len(),
{
    if ps.len() == 0 {
        0
    } else {
        fresh_count(ps.drop_last()) + if ps.last().slot is Fresh {
            1nat
        } else {
            0nat
        }
    }
}

/// The retained node for planned node `i`, the created windows being handed
/// out to the fresh nodes in preorder.
pub open spec fn resolve_node(ps: Seq<PlannedNode>, created: Seq<usize>, i: int) -> NodeInfo {
    let p = ps[i];
    match p.slot {
        Slot::Retained(h) => NodeInfo {
            hwnd: h,
            owns_hwnd: true,
            parent_hwnd: p.parent_hwnd,
            subtree_len: p.subtree_len,
        },
        Slot::Fresh => NodeInfo {
            hwnd: created[fresh_count(ps.take(i)) as int],
            owns_hwnd: true,
            parent_hwnd: p.parent_hwnd,
            subtree_len: p.subtree_len,
        },
        Slot::Virtual => NodeInfo {
            hwnd: p.parent_hwnd,
            owns_hwnd: false,
            parent_hwnd: p.parent_hwnd,
            subtree_len: p.subtree_len,
        },
    }
}

/// The retained node list of a committed plan.
pub open spec fn resolve(ps: Seq<PlannedNode>, created: Seq<usize>) -> Seq<NodeInfo> {
    Seq::new(ps.len(), |i: int| resolve_node(ps, created, i))
}

/// The owned windows under `parent`, in preorder.
pub open spec fn native_order(nodes: Seq<NodeInfo>, parent: usize) -> Seq<usize>
    decreases nodes.len(),
{
    if nodes.len() == 0 {
        Seq::empty()
    } else {
        native_order(nodes.drop_last(), parent) + if nodes.last().owns_hwnd
            && nodes.last().parent_hwnd == parent {
            seq![nodes.last().hwnd]
        } else {
            Seq::<usize>::empty()
        }
    }
}

/// The parents of owned windows, each once, in order of first appearance.
pub open spec fn parents_in_order(nodes: Seq<NodeInfo>) -> Seq<usize>
    decreases nodes.len(),
{
    if nodes.len() == 0 {
        Seq::empty()
    } else {
        let prev = parents_in_order(nodes.drop_last());
        let n = nodes.last();
        if n.owns_hwnd && !prev.contains(n.parent_hwnd) {
            prev.push(n.parent_hwnd)
        } else {
            prev
        }
    }
}

/// Some window under `parent` is created by the plan.
pub open spec fn creates_under(ps: Seq<PlannedNode>, parent: usize) -> bool {
    exists|i: int| 0 <= i < ps.len() && ps[i].slot is Fresh && ps[i].parent_hwnd == parent
}

/// A parent's child z-order is rewritten when its owned windows changed
/// order, or when one of them was created (a new window may reuse the
/// number of a destroyed one).
pub open spec fn needs_reorder(
    old_nodes: Seq<NodeInfo>,
    new_nodes: Seq<NodeInfo>,
    ps: Seq<PlannedNode>,
    parent: usize,
) -> bool {
    native_order(old_nodes, parent) != native_order(new_nodes, parent) || creates_under(ps, parent)
}

/// The reorders for the first `k` parents of `parents`.
pub open spec fn reorder_list(
    parents: Seq<usize>,
    old_nodes: Seq<NodeInfo>,
    new_nodes: Seq<NodeInfo>,
    ps: Seq<PlannedNode>,
    k: int,
) -> Seq<(usize, Seq<usize>)>
    decreases k,
{
    if k <= 0 || k > parents.len() {
        Seq::empty()
    } else {
        let prev = reorder_list(parents, old_nodes, new_nodes, ps, k - 1);
        let p = parents[k - 1];
        if needs_reorder(old_nodes, new_nodes, ps, p) {
            prev.push((p, native_order(new_nodes, p)))
        } else {
            prev
        }
    }
}

/// The reorders a commit asks for: one per parent that needs one, in order
/// of first appearance among the new owned windows.
pub open spec fn reorders_for(old_nodes: Seq<NodeInfo>, ps: Seq<PlannedNode>, created: Seq<usize>) -> Seq<
    (usize, Seq<usize>),
> {
    let new_nodes = resolve(ps, created);
    let parents = parents_in_order(new_nodes);
    reorder_list(parents, old_nodes, new_nodes, ps, parents.len() as int)
}

pub open spec fn reorder_view(r: Reorder) -> (usize, Seq<usize>) {
    (r.parent, r.hwnds@)
}

fn owned_order(nodes: &Vec<NodeInfo>, parent: usize) -> (r: Vec<usize>)
    ensures
        r@ == native_order(nodes@, parent),
{
    let mut r: Vec<usize> = Vec::new();
    let mut i: usize = 0;
    proof {
        assert(nodes@.take(0) =~= Seq::<NodeInfo>::empty());
    }
    while i < nodes.len()
        invariant
            0 <= i <= nodes@.len(),
            r@ == native_order(nodes@.take(i as int), parent),
        decreases nodes@.len() - i,
    {
        proof {
            assert(nodes@.take(i + 1).drop_last() =~= nodes@.take(i as int));
        }
        if nodes[i].owns_hwnd && nodes[i].parent_hwnd == parent {
            r.push(nodes[i].hwnd);
        }
        i = i + 1;
        proof {
            assert(r@ =~= native_order(nodes@.take(i as int), parent));
        }
    }
    proof {
        assert(nodes@.take(nodes@.len() as int) =~= nodes@);
    }
    r
}

fn contains_usize(v: &Vec<usize>, x: usize) -> (r: bool)
    ensures
        r == v@.contains(x),
{
    let mut i: usize = 0;
    while i < v.len()
        invariant
            0 <= i <= v@.len(),
            forall|m: int| 0 <= m < i ==> v@[m] != x,
        decreases v@.len() - i,
    {
        if v[i] == x {
            return true;
        }
        i = i + 1;
    }
    false
}

fn eq_usizes(a: &Vec<usize>, b: &Vec<usize>) -> (r: bool)
    ensures
        r == (a@ == b@),
{
    if a.len() != b.len() {
        return false;
    }
    let mut i: usize = 0;
    while i < a.len()
        invariant
            a@.len() == b@.len(),
            0 <= i <= a@.len(),
            forall|m: int| 0 <= m < i ==> a@[m] == b@[m],
        decreases a@.len() - i,
    {
        if a[i] != b[i] {
            return false;
        }
        i = i + 1;
    }
    proof {
        assert(a@ =~= b@);
    }
    true
}

fn parent_list(nodes: &Vec<NodeInfo>) -> (r: Vec<usize>)
    ensures
        r@ == parents_in_order(nodes@),
{
    let mut r: Vec<usize> = Vec::new();
    let mut i: usize = 0;
    proof {
        assert(nodes@.take(0) =~= Seq::<NodeInfo>::empty());
    }
    while i < nodes.len()
        invariant
            0 <= i <= nodes@.len(),
            r@ == parents_in_order(nodes@.take(i as int)),
        decreases nodes@.len() - i,
    {
        proof {
            assert(nodes@.take(i + 1).drop_last() =~= nodes@.take(i as int));
        }
        if nodes[i].owns_hwnd && !contains_usize(&r, nodes[i].parent_hwnd) {
            r.push(nodes[i].parent_hwnd);
        }
        i = i + 1;
    }
    proof {
        assert(nodes@.take(nodes@.len() as int) =~= nodes@);
    }
    r
}

fn any_fresh_under(ps: &Vec<PlannedNode>, parent: usize) -> (r: bool)
    ensures
        r == creates_under(ps@, parent),
{
    let mut i: usize = 0;
    while i < ps.len()
        invariant
            0 <= i <= ps@.len(),
            forall|m: int| 0 <= m < i ==> !(ps@[m].slot is Fresh && ps@[m].parent_hwnd == parent),
        decreases ps@.len() - i,
    {
        if matches!(ps[i].slot, Slot::Fresh) && ps[i].parent_hwnd == parent {
            return true;
        }
        i = i + 1;
    }
    false
}

fn resolve_nodes(ps: &Vec<PlannedNode>, created: &[usize]) -> (r: Vec<NodeInfo>)
    requires
        created@.len() == fresh_count(ps@),
    ensures
        r@ == resolve(ps@, created@),
{
    let mut r: Vec<NodeInfo> = Vec::new();
    let mut k: usize = 0;
    let mut i: usize = 0;
    proof {
        assert(ps@.take(0) =~= Seq::<PlannedNode>::empty());
    }
    while i < ps.len()
        invariant
            0 <= i <= ps@.len(),
            created@.len() == fresh_count(ps@),
            k == fresh_count(ps@.take(i as int)),
            r@.len() == i,
            forall|m: int| 0 <= m < i ==> r@[m] == resolve_node(ps@, created@, m),
        decreases ps@.len() - i,
    {
        proof {
            assert(ps@.take(i + 1).drop_last() =~= ps@.take(i as int));
            lemma_fresh_count_prefix(ps@, i + 1);
        }
        let p = ps[i];
        let n = match p.slot {
            Slot::Retained(h) => NodeInfo {
                hwnd: h,
                owns_hwnd: true,
                parent_hwnd: p.parent_hwnd,
                subtree_len: p.subtree_len,
            },
            Slot::Fresh => {
                let h = created[k];
                k = k + 1;
                NodeInfo { hwnd: h, owns_hwnd: true, parent_hwnd: p.parent_hwnd, subtree_len: p.subtree_len }
            },
            Slot::Virtual => NodeInfo {
                hwnd: p.parent_hwnd,
                owns_hwnd: false,
                parent_hwnd: p.parent_hwnd,
                subtree_len: p.subtree_len,
            },
        };
        r.push(n);
        i = i + 1;
    }
    proof {
        assert(r@ =~= resolve(ps@, created@));
    }
    r
}

pub proof fn lemma_fresh_count_prefix(ps: Seq<PlannedNode>, i: int)
    requires
        0 <= i <= ps.len(),
    ensures
        fresh_count(ps.take(i)) <= fresh_count(ps),
    decreases ps.len() - i,
{
    if i < ps.len() {
        lemma_fresh_count_prefix(ps, i + 1);
        assert(ps.take(i + 1).drop_last() =~= ps.take(i));
    } else {
        assert(ps.take(i) =~= ps);
    }
}

// ---------------------------------------------------------------------------
// The retained tree
// ---------------------------------------------------------------------------

/// The top-level old node: the retained nodes only describe the old view
/// when there are any (the very first render starts from nothing).
pub open spec fn effective_old(old: Option<ViewNode>, onodes: Seq<NodeInfo>) -> Option<ViewNode> {
    if onodes.len() == 0 {
        None
    } else {
        old
    }
}

/// The retained native tree: one node per view node, in preorder.
#[derive(Debug)]
pub struct NodeTree {
    pub nodes: Vec<NodeInfo>,
}

impl NodeTree {
    /// An empty retained tree.
    pub fn new() -> (r: NodeTree)
        ensures
            r.nodes@ == Seq::<NodeInfo>::empty(),
    {
        NodeTree { nodes: Vec::new() }
    }

    /// The retained node at preorder position `pos`.
    pub fn get_by_position(&self, pos: usize) -> (r: Option<&NodeInfo>)
        ensures
            pos < self.nodes@.len() ==> r == Some(&self.nodes@[pos as int]),
            pos >= self.nodes@.len() ==> r is None,
    {
        if pos < self.nodes.len() {
            Some(&self.nodes[pos])
        } else {
            None
        }
    }

    /// Plans the reconciliation of the retained tree, which describes `old`
    /// (when it holds any node), against `new`, whose windows hang under
    /// `root_hwnd`. Nothing native is touched. An empty retained tree holds
    /// no window: `new` may then take over `old` only when `old` is the empty
    /// view, the view before the first render; otherwise the two diverge.
    pub fn reconcile(&self, root_hwnd: usize, old: Option<&ViewNode>, new: &ViewNode) -> (plan:
        ReconcilePlan)
        requires
            tree::keys_unique(*new),
            tree::size(*new) <= usize::MAX,
            self.nodes@.len() > 0 && old is Some ==> describes(*old.unwrap(), self.nodes@),
            self.nodes@.len() == 0 && old is Some && can_update(opt_deref(old), *new) ==> old.unwrap().kind
                is Empty,
        ensures
            plan.nodes@ == plan_nodes(
                root_hwnd,
                effective_old(opt_deref(old), self.nodes@),
                *new,
                self.nodes@,
                0,
            ),
            plan.ops@ == plan_ops(
                root_hwnd,
                effective_old(opt_deref(old), self.nodes@),
                *new,
                self.nodes@,
                0,
                self.nodes@.len() as int,
                0,
            ),
    {
        let mut nodes: Vec<PlannedNode> = Vec::new();
        let mut ops: Vec<NativeOp> = Vec::new();
        let prev = if self.nodes.len() == 0 {
            None
        } else {
            old
        };
        plan_node(root_hwnd, prev, new, &self.nodes, 0, self.nodes.len(), 0, &mut nodes, &mut ops);
        proof {
            assert(nodes@ =~= plan_nodes(
                root_hwnd,
                effective_old(opt_deref(old), self.nodes@),
                *new,
                self.nodes@,
                0,
            ));
            assert(ops@ =~= plan_ops(
                root_hwnd,
                effective_old(opt_deref(old), self.nodes@),
                *new,
                self.nodes@,
                0,
                self.nodes@.len() as int,
                0,
            ));
        }
        ReconcilePlan { nodes, ops }
    }

    /// Installs a performed plan: the n-th fresh node gets `created[n]`.
    /// Returns, for each parent whose owned windows changed order or gained
    /// a created window, the new z-order of its owned windows.
    pub fn commit(&mut self, plan: &ReconcilePlan, created: &[usize]) -> (reorders: Vec<Reorder>)
        requires
            created@.len() == fresh_count(plan.nodes@),
        ensures
            final(self).nodes@ == resolve(plan.nodes@, created@),
            reorders@.map_values(|r: Reorder| reorder_view(r)) == reorders_for(
                old(self).nodes@,
                plan.nodes@,
                created@,
            ),
    {
        let new_nodes = resolve_nodes(&plan.nodes, created);
        let parents = parent_list(&new_nodes);
        let mut reorders: Vec<Reorder> = Vec::new();
        let mut k: usize = 0;
        while k < parents.len()
            invariant
                0 <= k <= parents@.len(),
                parents@ == parents_in_order(new_nodes@),
                new_nodes@ == resolve(plan.nodes@, created@),
                reorders@.map_values(|r: Reorder| reorder_view(r)) == reorder_list(
                    parents@,
                    self.nodes@,
                    new_nodes@,
                    plan.nodes@,
                    k as int,
                ),
            decreases parents@.len() - k,
        {
            let p = parents[k];
            let old_order = owned_order(&self.nodes, p);
            let new_order = owned_order(&new_nodes, p);
            let changed = !eq_usizes(&old_order, &new_order);
            let fresh = any_fresh_under(&plan.nodes, p);
            let ghost before = reorders@;
            if changed || fresh {
                reorders.push(Reorder { parent: p, hwnds: new_order });
                proof {
                    assert(reorders@ == before.push(Reorder { parent: p, hwnds: new_order }));
                    assert(reorders@.map_values(|r: Reorder| reorder_view(r)) =~= before.map_values(
                        |r: Reorder| reorder_view(r),
                    ).push((p, native_order(new_nodes@, p))));
                }
            }
            k = k + 1;
        }
        self.nodes = new_nodes;
        reorders
    }
}


pub proof fn lemma_fits_all_prefix(s: Seq<ViewNode>, sh: Seq<(usize, bool)>, lo: int, j: int, k: int)
    requires
        fits_all(s, sh, lo, k),
        0 <= j <= k <= s.len(),
    ensures
        fits_all(s, sh, lo, j),
    decreases k - j,
{
    if j < k {
        lemma_fits_all_prefix(s, sh, lo, j, k - 1);
    }
}

/// Whether `nodes[lo..]` describes the subtree `t`.
fn check_fits(t: &ViewNode, nodes: &Vec<NodeInfo>, lo: usize) -> (r: bool)
    ensures
        r == consistent(*t, nodes@, lo as int),
    decreases *t,
{
    if lo >= nodes.len() {
        return false;
    }
    let n = nodes[lo];
    proof {
        assert(shape(nodes@)[lo as int] == (n.subtree_len, n.owns_hwnd));
    }
    if n.owns_hwnd != !t.kind.is_virtual() {
        return false;
    }
    if !t.kind.is_container() {
        return n.subtree_len == 1;
    }
    let cn = t.children.len();
    let nl = nodes.len();
    let mut at = lo + 1;
    let mut j: usize = 0;
    proof {
        assert(t.children@.take(0) =~= Seq::<ViewNode>::empty());
    }
    while j < cn
        invariant
            cn == t.children@.len(),
            0 <= j <= cn,
            lo < nodes@.len(),
            at == lo + 1 + tree::offset(t.children@, j as int),
            at <= nodes@.len(),
            nl == nodes@.len(),
            tree::kind_is_container(t.kind),
            fits_all(t.children@, shape(nodes@), lo + 1, j as int),
        decreases cn - j,
    {
        if !check_fits(&t.children[j], nodes, at) {
            proof {
                if consistent(*t, nodes@, lo as int) {
                    assert(fits_all(t.children@, shape(nodes@), lo + 1, cn as int));
                    lemma_fits_all_prefix(t.children@, shape(nodes@), lo + 1, j + 1, cn as int);
                    assert(fits(t.children@[j as int], shape(nodes@), at as int));
                    assert(false);
                }
            }
            return false;
        }
        proof {
            tree::lemma_sizes_take_step(t.children@, j as int);
            assert(shape(nodes@)[at as int] == (nodes@[at as int].subtree_len, nodes@[at as int].owns_hwnd));
            assert(shape(nodes@).len() == nodes@.len());
            assert(fits(t.children@[j as int], shape(nodes@), at as int));
        }
        at = at + nodes[at].subtree_len;
        j = j + 1;
    }
    proof {
        tree::lemma_sizes_take_all(t.children@);
    }
    n.subtree_len == at - lo
}

impl NodeTree {
    /// Whether the retained nodes describe exactly the view `view` (the
    /// condition under which `reconcile` may be given `view` as the old one).
    pub fn describes_view(&self, view: &ViewNode) -> (r: bool)
        ensures
            r == describes(*view, self.nodes@),
    {
        let ok = check_fits(view, &self.nodes, 0);
        proof {
            if ok {
                assert(shape(self.nodes@).len() == self.nodes@.len());
            }
        }
        ok && self.nodes.len() == nodes_len_of(view, &self.nodes, ok)
    }
}

/// The size of `view`, read off nodes that describe it.
fn nodes_len_of(view: &ViewNode, nodes: &Vec<NodeInfo>, fits_ok: bool) -> (r: usize)
    requires
        fits_ok ==> consistent(*view, nodes@, 0),
    ensures
        fits_ok ==> r == tree::size(*view),
{
    if fits_ok {
        proof {
            assert(shape(nodes@)[0] == (nodes@[0].subtree_len, nodes@[0].owns_hwnd));
        }
        nodes[0].subtree_len
    } else {
        0
    }
}

} // verus!
