//! What every reconciliation guarantees, whatever the old and new views.
use vstd::prelude::*;
use vstd::multiset::Multiset;
use crate::tree;
use crate::tree::ViewNode;
use crate::reconciler;
use crate::reconciler::{NativeOp, NodeInfo, PlannedNode, Slot};

verus! {

// ---------------------------------------------------------------------------
// Shapes are local: a subtree's fit only depends on its own range
// ---------------------------------------------------------------------------

pub proof fn lemma_fits_shift(
    t: ViewNode,
    a: Seq<(usize, bool)>,
    b: Seq<(usize, bool)>,
    c: Seq<(usize, bool)>,
    lo: int,
)
    requires
        reconciler::fits(t, b, lo),
    ensures
        reconciler::fits(t, a + b + c, a.len() + lo),
    decreases t, 1int,
{
    assert((a + b + c)[a.len() + lo] == b[lo]);
    if tree::kind_is_container(t.kind) {
        lemma_fits_all_shift(t.children@, a, b, c, lo + 1, t.children@.len() as int);
    }
}

pub proof fn lemma_fits_all_shift(
    s: Seq<ViewNode>,
    a: Seq<(usize, bool)>,
    b: Seq<(usize, bool)>,
    c: Seq<(usize, bool)>,
    lo: int,
    k: int,
)
    requires
        reconciler::fits_all(s, b, lo, k),
    ensures
        reconciler::fits_all(s, a + b + c, a.len() + lo, k),
    decreases s, k,
{
    if 0 < k <= s.len() {
        lemma_fits_all_shift(s, a, b, c, lo, k - 1);
        lemma_fits_shift(s[k - 1], a, b, c, lo + tree::offset(s, k - 1));
    }
}

/// Appending the shape of sibling `k` to a shape that already fits the
/// first `k` siblings makes it fit the first `k + 1`.
pub proof fn lemma_fits_all_extend(
    s: Seq<ViewNode>,
    p: Seq<(usize, bool)>,
    q: Seq<(usize, bool)>,
    lo: int,
    k: int,
)
    requires
        0 <= k < s.len(),
        reconciler::fits_all(s, p, lo, k),
        reconciler::fits(s[k], q, 0),
        p.len() == lo + tree::offset(s, k),
    ensures
        reconciler::fits_all(s, p + q, lo, k + 1),
{
    let e = Seq::<(usize, bool)>::empty();
    lemma_fits_all_shift(s, e, p, q, lo, k);
    assert(e + p + q =~= p + q);
    lemma_fits_shift(s[k], p, q, e, 0);
    assert(p + q + e =~= p + q);
}

pub proof fn lemma_plan_shape_add(x: Seq<PlannedNode>, y: Seq<PlannedNode>)
    ensures
        reconciler::plan_shape(x + y) == reconciler::plan_shape(x) + reconciler::plan_shape(y),
{
    assert(reconciler::plan_shape(x + y) =~= reconciler::plan_shape(x) + reconciler::plan_shape(y));
}

// ---------------------------------------------------------------------------
// Planned nodes fit the new view
// ---------------------------------------------------------------------------

pub proof fn lemma_mount_fits(t: ViewNode, parent: usize)
    requires
        tree::size(t) <= usize::MAX,
    ensures
        reconciler::fits(t, reconciler::plan_shape(reconciler::mount_nodes(t, parent)), 0),
    decreases t, 1int,
{
    reconciler::lemma_mount_nodes_len(t, parent);
    if tree::kind_is_container(t.kind) {
        let root = seq![PlannedNode { slot: Slot::Virtual, parent_hwnd: parent, subtree_len: tree::size(t) as usize }];
        let n = t.children@.len() as int;
        lemma_mount_all_fits(t.children@, parent, root, n);
        tree::lemma_sizes_take_all(t.children@);
    }
}

pub proof fn lemma_mount_all_fits(s: Seq<ViewNode>, parent: usize, root: Seq<PlannedNode>, k: int)
    requires
        0 <= k <= s.len(),
        root.len() == 1,
        tree::sizes(s) <= usize::MAX,
    ensures
        reconciler::fits_all(
            s,
            reconciler::plan_shape(root + reconciler::mount_all_nodes(s, parent, k)),
            1,
            k,
        ),
    decreases s, k,
{
    if k > 0 {
        let prev = reconciler::mount_all_nodes(s, parent, k - 1);
        let child = reconciler::mount_nodes(s[k - 1], parent);
        lemma_mount_all_fits(s, parent, root, k - 1);
        tree::lemma_sizes_take_all(s);
        tree::lemma_sizes_take_step(s, k - 1);
        tree::lemma_offset_mono(s, k, s.len() as int);
        lemma_mount_fits(s[k - 1], parent);
        reconciler::lemma_mount_all_nodes_len(s, parent, k - 1);
        lemma_plan_shape_add(root, prev);
        lemma_plan_shape_add(root + prev, child);
        assert(root + (prev + child) =~= root + prev + child);
        lemma_fits_all_extend(
            s,
            reconciler::plan_shape(root + prev),
            reconciler::plan_shape(child),
            1,
            k - 1,
        );
    }
}

pub proof fn lemma_plan_fits(
    parent: usize,
    old: Option<ViewNode>,
    new: ViewNode,
    onodes: Seq<NodeInfo>,
    lo: int,
)
    requires
        tree::size(new) <= usize::MAX,
    ensures
        reconciler::fits(
            new,
            reconciler::plan_shape(reconciler::plan_nodes(parent, old, new, onodes, lo)),
            0,
        ),
    decreases new, 1int,
{
    reconciler::lemma_plan_nodes_len(parent, old, new, onodes, lo);
    if !reconciler::can_update(old, new) {
        lemma_mount_fits(new, parent);
    } else if tree::kind_is_container(new.kind) {
        let root = seq![PlannedNode { slot: Slot::Virtual, parent_hwnd: parent, subtree_len: tree::size(new) as usize }];
        lemma_plan_children_fits(
            parent,
            old.unwrap().children@,
            new.children@,
            onodes,
            lo + 1,
            root,
            new.children@.len() as int,
        );
        tree::lemma_sizes_take_all(new.children@);
    }
}

pub proof fn lemma_plan_children_fits(
    parent: usize,
    olds: Seq<ViewNode>,
    news: Seq<ViewNode>,
    onodes: Seq<NodeInfo>,
    olo: int,
    root: Seq<PlannedNode>,
    k: int,
)
    requires
        0 <= k <= news.len(),
        root.len() == 1,
        tree::sizes(news) <= usize::MAX,
    ensures
        reconciler::fits_all(
            news,
            reconciler::plan_shape(
                root + reconciler::plan_children_nodes(parent, olds, news, onodes, olo, k),
            ),
            1,
            k,
        ),
    decreases news, k,
{
    if k > 0 {
        let prev = reconciler::plan_children_nodes(parent, olds, news, onodes, olo, k - 1);
        let (o, l) = match reconciler::match_old(olds, news, k - 1) {
            Some(i) => (Some(olds[i]), olo + tree::offset(olds, i)),
            None => (None, 0),
        };
        let child = reconciler::plan_nodes(parent, o, news[k - 1], onodes, l);
        assert(reconciler::plan_children_nodes(parent, olds, news, onodes, olo, k) == prev + child);
        lemma_plan_children_fits(parent, olds, news, onodes, olo, root, k - 1);
        tree::lemma_sizes_take_all(news);
        tree::lemma_sizes_take_step(news, k - 1);
        tree::lemma_offset_mono(news, k, news.len() as int);
        lemma_plan_fits(parent, o, news[k - 1], onodes, l);
        reconciler::lemma_plan_children_nodes_len(parent, olds, news, onodes, olo, k - 1);
        lemma_plan_shape_add(root, prev);
        lemma_plan_shape_add(root + prev, child);
        assert(root + (prev + child) =~= root + prev + child);
        lemma_fits_all_extend(
            news,
            reconciler::plan_shape(root + prev),
            reconciler::plan_shape(child),
            1,
            k - 1,
        );
    }
}

/// One retained node per view node, each recording its exact subtree
/// length, and exactly the nodes of non-virtual kinds (everything but
/// `Column`, `Row` and the empty view) owning a window: after a commit the
/// retained tree describes the new view, whatever the old one was, so the
/// next reconciliation may take the new view as its old one.
pub proof fn law_commit_describes_new_view(
    root: usize,
    old: Option<ViewNode>,
    new: ViewNode,
    onodes: Seq<NodeInfo>,
    created: Seq<usize>,
)
    requires
        tree::size(new) <= usize::MAX,
        created.len() == reconciler::fresh_count(
            reconciler::plan_nodes(root, reconciler::effective_old(old, onodes), new, onodes, 0),
        ),
    ensures
        reconciler::describes(
            new,
            reconciler::resolve(
                reconciler::plan_nodes(root, reconciler::effective_old(old, onodes), new, onodes, 0),
                created,
            ),
        ),
{
    let eo = reconciler::effective_old(old, onodes);
    let ps = reconciler::plan_nodes(root, eo, new, onodes, 0);
    lemma_plan_fits(root, eo, new, onodes, 0);
    reconciler::lemma_plan_nodes_len(root, eo, new, onodes, 0);
    let ns = reconciler::resolve(ps, created);
    assert(reconciler::shape(ns) =~= reconciler::plan_shape(ps));
}


// ---------------------------------------------------------------------------
// Creations line up with fresh nodes
// ---------------------------------------------------------------------------

/// The preorder positions of the `Create` operations, in order.
pub open spec fn create_positions(ops: Seq<NativeOp>) -> Seq<usize>
    decreases ops.len(),
{
    if ops.len() == 0 {
        Seq::empty()
    } else {
        create_positions(ops.drop_last()) + match ops.last() {
            NativeOp::Create { new_pos, .. } => seq![new_pos],
            _ => Seq::<usize>::empty(),
        }
    }
}

/// The preorder positions (counted from `base`) of the fresh planned nodes.
pub open spec fn fresh_positions(ps: Seq<PlannedNode>, base: int) -> Seq<usize>
    decreases ps.len(),
{
    if ps.len() == 0 {
        Seq::empty()
    } else {
        fresh_positions(ps.drop_last(), base) + if ps.last().slot is Fresh {
            seq![(base + ps.len() - 1) as usize]
        } else {
            Seq::<usize>::empty()
        }
    }
}

pub proof fn lemma_create_single(op: NativeOp)
    ensures
        create_positions(seq![op]) == match op {
            NativeOp::Create { new_pos, .. } => seq![new_pos],
            _ => Seq::<usize>::empty(),
        },
{
    assert(seq![op].drop_last() =~= Seq::<NativeOp>::empty());
    assert(create_positions(Seq::<NativeOp>::empty()) =~= Seq::<usize>::empty());
    assert(create_positions(seq![op]) =~= match op {
        NativeOp::Create { new_pos, .. } => seq![new_pos],
        _ => Seq::<usize>::empty(),
    });
}

pub proof fn lemma_fresh_single(p: PlannedNode, base: int)
    ensures
        fresh_positions(seq![p], base) == if p.slot is Fresh {
            seq![base as usize]
        } else {
            Seq::<usize>::empty()
        },
{
    assert(seq![p].drop_last() =~= Seq::<PlannedNode>::empty());
    assert(fresh_positions(Seq::<PlannedNode>::empty(), base) =~= Seq::<usize>::empty());
    assert(fresh_positions(seq![p], base) =~= if p.slot is Fresh {
        seq![base as usize]
    } else {
        Seq::<usize>::empty()
    });
}

pub proof fn lemma_create_positions_add(x: Seq<NativeOp>, y: Seq<NativeOp>)
    ensures
        create_positions(x + y) == create_positions(x) + create_positions(y),
    decreases y.len(),
{
    if y.len() == 0 {
        assert(x + y =~= x);
        assert(create_positions(x) + create_positions(y) =~= create_positions(x));
    } else {
        lemma_create_positions_add(x, y.drop_last());
        assert((x + y).drop_last() =~= x + y.drop_last());
        assert((x + y).last() == y.last());
        assert(create_positions(x + y) =~= create_positions(x) + create_positions(y));
    }
}

pub proof fn lemma_fresh_positions_add(x: Seq<PlannedNode>, y: Seq<PlannedNode>, base: int)
    ensures
        fresh_positions(x + y, base) == fresh_positions(x, base) + fresh_positions(y, base + x.len()),
    decreases y.len(),
{
    if y.len() == 0 {
        assert(x + y =~= x);
        assert(fresh_positions(x, base) + fresh_positions(y, base + x.len()) =~= fresh_positions(x, base));
    } else {
        lemma_fresh_positions_add(x, y.drop_last(), base);
        assert((x + y).drop_last() =~= x + y.drop_last());
        assert((x + y).last() == y.last());
        assert(fresh_positions(x + y, base) =~= fresh_positions(x, base) + fresh_positions(y, base + x.len()));
    }
}

pub proof fn lemma_fresh_positions_len(ps: Seq<PlannedNode>, base: int)
    ensures
        fresh_positions(ps, base).len() == reconciler::fresh_count(ps),
    decreases ps.len(),
{
    if ps.len() > 0 {
        lemma_fresh_positions_len(ps.drop_last(), base);
    }
}

pub proof fn lemma_destroy_creates_nothing(nodes: Seq<NodeInfo>, lo: int, hi: int)
    ensures
        create_positions(reconciler::destroy_ops(nodes, lo, hi)) == Seq::<usize>::empty(),
    decreases hi - lo,
{
    if lo < hi {
        let head = if nodes[hi - 1].owns_hwnd {
            seq![NativeOp::Destroy { hwnd: nodes[hi - 1].hwnd, old_pos: (hi - 1) as usize }]
        } else {
            Seq::<NativeOp>::empty()
        };
        lemma_destroy_creates_nothing(nodes, lo, hi - 1);
        lemma_create_positions_add(head, reconciler::destroy_ops(nodes, lo, hi - 1));
        if nodes[hi - 1].owns_hwnd {
            lemma_create_single(NativeOp::Destroy { hwnd: nodes[hi - 1].hwnd, old_pos: (hi - 1) as usize });
        } else {
            assert(create_positions(head) =~= Seq::<usize>::empty());
        }
    }
}

pub proof fn lemma_unused_creates_nothing(
    olds: Seq<ViewNode>,
    news: Seq<ViewNode>,
    onodes: Seq<NodeInfo>,
    olo: int,
    k: int,
)
    ensures
        create_positions(reconciler::unused_ops(olds, news, onodes, olo, k)) == Seq::<usize>::empty(),
    decreases k,
{
    if k > 0 {
        lemma_unused_creates_nothing(olds, news, onodes, olo, k - 1);
        let tail = if reconciler::matched(olds, news, k - 1) {
            Seq::<NativeOp>::empty()
        } else {
            reconciler::destroy_ops(onodes, olo + tree::offset(olds, k - 1), olo + tree::offset(olds, k))
        };
        lemma_destroy_creates_nothing(onodes, olo + tree::offset(olds, k - 1), olo + tree::offset(olds, k));
        lemma_create_positions_add(reconciler::unused_ops(olds, news, onodes, olo, k - 1), tail);
        assert(create_positions(Seq::<NativeOp>::empty()) =~= Seq::<usize>::empty());
    }
}

pub proof fn lemma_mount_creates(t: ViewNode, parent: usize, pos: int)
    ensures
        create_positions(reconciler::mount_ops(t, parent, pos)) == fresh_positions(
            reconciler::mount_nodes(t, parent),
            pos,
        ),
    decreases t, 1int,
{
    if tree::kind_is_container(t.kind) {
        let root = seq![PlannedNode { slot: Slot::Virtual, parent_hwnd: parent, subtree_len: tree::size(t) as usize }];
        let n = t.children@.len() as int;
        lemma_mount_all_creates(t.children@, parent, pos + 1, n);
        lemma_fresh_positions_add(root, reconciler::mount_all_nodes(t.children@, parent, n), pos);
        lemma_fresh_single(root[0], pos);
        assert(root =~= seq![root[0]]);
        assert(fresh_positions(root, pos) + fresh_positions(
            reconciler::mount_all_nodes(t.children@, parent, n),
            pos + 1,
        ) =~= fresh_positions(reconciler::mount_all_nodes(t.children@, parent, n), pos + 1));
    } else if t.kind is Empty {
        let m = reconciler::mount_nodes(t, parent);
        lemma_fresh_single(m[0], pos);
        assert(m =~= seq![m[0]]);
        assert(create_positions(Seq::<NativeOp>::empty()) =~= Seq::<usize>::empty());
    } else {
        let m = reconciler::mount_nodes(t, parent);
        let o = reconciler::mount_ops(t, parent, pos);
        lemma_fresh_single(m[0], pos);
        assert(m =~= seq![m[0]]);
        lemma_create_single(o[0]);
        assert(o =~= seq![o[0]]);
    }
}

pub proof fn lemma_mount_all_creates(s: Seq<ViewNode>, parent: usize, pos: int, k: int)
    requires
        0 <= k <= s.len(),
    ensures
        create_positions(reconciler::mount_all_ops(s, parent, pos, k)) == fresh_positions(
            reconciler::mount_all_nodes(s, parent, k),
            pos,
        ),
    decreases s, k,
{
    if k > 0 {
        lemma_mount_all_creates(s, parent, pos, k - 1);
        let pn = reconciler::mount_all_nodes(s, parent, k - 1);
        let po = reconciler::mount_all_ops(s, parent, pos, k - 1);
        let cn = reconciler::mount_nodes(s[k - 1], parent);
        let co = reconciler::mount_ops(s[k - 1], parent, pos + tree::offset(s, k - 1));
        lemma_mount_creates(s[k - 1], parent, pos + tree::offset(s, k - 1));
        lemma_create_positions_add(po, co);
        lemma_fresh_positions_add(pn, cn, pos);
        reconciler::lemma_mount_all_nodes_len(s, parent, k - 1);
    } else {
        assert(create_positions(Seq::<NativeOp>::empty()) =~= Seq::<usize>::empty());
        assert(fresh_positions(Seq::<PlannedNode>::empty(), pos) =~= Seq::<usize>::empty());
    }
}

pub proof fn lemma_plan_creates(
    parent: usize,
    old: Option<ViewNode>,
    new: ViewNode,
    onodes: Seq<NodeInfo>,
    lo: int,
    hi: int,
    pos: int,
)
    ensures
        create_positions(reconciler::plan_ops(parent, old, new, onodes, lo, hi, pos))
            == fresh_positions(reconciler::plan_nodes(parent, old, new, onodes, lo), pos),
    decreases new, 1int,
{
    if !reconciler::can_update(old, new) {
        lemma_destroy_creates_nothing(onodes, lo, hi);
        lemma_mount_creates(new, parent, pos);
        lemma_create_positions_add(
            reconciler::destroy_ops(onodes, lo, hi),
            reconciler::mount_ops(new, parent, pos),
        );
        assert(Seq::<usize>::empty() + create_positions(reconciler::mount_ops(new, parent, pos))
            =~= create_positions(reconciler::mount_ops(new, parent, pos)));
    } else if tree::kind_is_container(new.kind) {
        let olds = old.unwrap().children@;
        let news = new.children@;
        let root = seq![PlannedNode { slot: Slot::Virtual, parent_hwnd: parent, subtree_len: tree::size(new) as usize }];
        let cn = reconciler::plan_children_nodes(parent, olds, news, onodes, lo + 1, news.len() as int);
        let co = reconciler::plan_children_ops(parent, olds, news, onodes, lo + 1, pos + 1, news.len() as int);
        let uo = reconciler::unused_ops(olds, news, onodes, lo + 1, olds.len() as int);
        lemma_plan_children_creates(parent, olds, news, onodes, lo + 1, pos + 1, news.len() as int);
        lemma_unused_creates_nothing(olds, news, onodes, lo + 1, olds.len() as int);
        lemma_create_positions_add(co, uo);
        lemma_fresh_positions_add(root, cn, pos);
        lemma_fresh_single(root[0], pos);
        assert(root =~= seq![root[0]]);
        assert(create_positions(co) + create_positions(uo) =~= create_positions(co));
        assert(fresh_positions(root, pos) + fresh_positions(cn, pos + 1) =~= fresh_positions(cn, pos + 1));
    } else if new.kind is Empty {
        let m = reconciler::plan_nodes(parent, old, new, onodes, lo);
        lemma_fresh_single(m[0], pos);
        assert(m =~= seq![m[0]]);
        assert(create_positions(Seq::<NativeOp>::empty()) =~= Seq::<usize>::empty());
    } else {
        let m = reconciler::plan_nodes(parent, old, new, onodes, lo);
        let o = reconciler::plan_ops(parent, old, new, onodes, lo, hi, pos);
        lemma_fresh_single(m[0], pos);
        assert(m =~= seq![m[0]]);
        lemma_create_single(o[0]);
        assert(o =~= seq![o[0]]);
    }
}

pub proof fn lemma_plan_children_creates(
    parent: usize,
    olds: Seq<ViewNode>,
    news: Seq<ViewNode>,
    onodes: Seq<NodeInfo>,
    olo: int,
    cpos: int,
    k: int,
)
    requires
        0 <= k <= news.len(),
    ensures
        create_positions(reconciler::plan_children_ops(parent, olds, news, onodes, olo, cpos, k))
            == fresh_positions(reconciler::plan_children_nodes(parent, olds, news, onodes, olo, k), cpos),
    decreases news, k,
{
    if k > 0 {
        lemma_plan_children_creates(parent, olds, news, onodes, olo, cpos, k - 1);
        let pn = reconciler::plan_children_nodes(parent, olds, news, onodes, olo, k - 1);
        let po = reconciler::plan_children_ops(parent, olds, news, onodes, olo, cpos, k - 1);
        let p = cpos + tree::offset(news, k - 1);
        let (o, l, h) = match reconciler::match_old(olds, news, k - 1) {
            Some(i) => (Some(olds[i]), olo + tree::offset(olds, i), olo + tree::offset(olds, i + 1)),
            None => (None, 0, 0),
        };
        let cn = reconciler::plan_nodes(parent, o, news[k - 1], onodes, l);
        let co = reconciler::plan_ops(parent, o, news[k - 1], onodes, l, h, p);
        assert(reconciler::plan_children_nodes(parent, olds, news, onodes, olo, k) == pn + cn);
        assert(reconciler::plan_children_ops(parent, olds, news, onodes, olo, cpos, k) == po + co);
        lemma_plan_creates(parent, o, news[k - 1], onodes, l, h, p);
        lemma_create_positions_add(po, co);
        lemma_fresh_positions_add(pn, cn, cpos);
        reconciler::lemma_plan_children_nodes_len(parent, olds, news, onodes, olo, k - 1);
    } else {
        assert(create_positions(Seq::<NativeOp>::empty()) =~= Seq::<usize>::empty());
        assert(fresh_positions(Seq::<PlannedNode>::empty(), cpos) =~= Seq::<usize>::empty());
    }
}

/// The plan creates exactly one window per fresh planned node, in preorder,
/// each `Create` naming the position of its node; so the n-th created window
/// is the one `commit` hands to the n-th fresh node.
pub proof fn law_creations_match_fresh_nodes(
    root: usize,
    old: Option<ViewNode>,
    new: ViewNode,
    onodes: Seq<NodeInfo>,
)
    ensures
        create_positions(
            reconciler::plan_ops(
                root,
                reconciler::effective_old(old, onodes),
                new,
                onodes,
                0,
                onodes.len() as int,
                0,
            ),
        ) == fresh_positions(
            reconciler::plan_nodes(root, reconciler::effective_old(old, onodes), new, onodes, 0),
            0,
        ),
        create_positions(
            reconciler::plan_ops(
                root,
                reconciler::effective_old(old, onodes),
                new,
                onodes,
                0,
                onodes.len() as int,
                0,
            ),
        ).len() == reconciler::fresh_count(
            reconciler::plan_nodes(root, reconciler::effective_old(old, onodes), new, onodes, 0),
        ),
{
    let eo = reconciler::effective_old(old, onodes);
    lemma_plan_creates(root, eo, new, onodes, 0, onodes.len() as int, 0);
    lemma_fresh_positions_len(reconciler::plan_nodes(root, eo, new, onodes, 0), 0);
}


// ---------------------------------------------------------------------------
// Every old window is destroyed or kept, exactly once
// ---------------------------------------------------------------------------

/// The old preorder positions that the operations destroy or update, in order.
pub open spec fn touched(ops: Seq<NativeOp>) -> Seq<usize>
    decreases ops.len(),
{
    if ops.len() == 0 {
        Seq::empty()
    } else {
        touched(ops.drop_last()) + match ops.last() {
            NativeOp::Destroy { old_pos, .. } => seq![old_pos],
            NativeOp::Update { old_pos, .. } => seq![old_pos],
            NativeOp::Create { .. } => Seq::<usize>::empty(),
        }
    }
}

/// The positions in `lo..hi` of retained nodes that own a window.
pub open spec fn owned_positions(nodes: Seq<NodeInfo>, lo: int, hi: int) -> Seq<usize>
    decreases hi - lo,
{
    if hi <= lo {
        Seq::empty()
    } else {
        owned_positions(nodes, lo, hi - 1) + if nodes[hi - 1].owns_hwnd {
            seq![(hi - 1) as usize]
        } else {
            Seq::<usize>::empty()
        }
    }
}

pub proof fn lemma_empty_to_multiset()
    ensures
        Seq::<usize>::empty().to_multiset() == Multiset::<usize>::empty(),
{
    broadcast use vstd::seq_lib::group_to_multiset_ensures;
    broadcast use vstd::multiset::lemma_multiset_empty_len;

    assert(Seq::<usize>::empty().to_multiset().len() == 0);
}

pub proof fn lemma_touched_add(x: Seq<NativeOp>, y: Seq<NativeOp>)
    ensures
        touched(x + y) == touched(x) + touched(y),
    decreases y.len(),
{
    if y.len() == 0 {
        assert(x + y =~= x);
        assert(touched(x) + touched(y) =~= touched(x));
    } else {
        lemma_touched_add(x, y.drop_last());
        assert((x + y).drop_last() =~= x + y.drop_last());
        assert((x + y).last() == y.last());
        assert(touched(x + y) =~= touched(x) + touched(y));
    }
}

pub proof fn lemma_touched_single(op: NativeOp)
    ensures
        touched(seq![op]) == match op {
            NativeOp::Destroy { old_pos, .. } => seq![old_pos],
            NativeOp::Update { old_pos, .. } => seq![old_pos],
            NativeOp::Create { .. } => Seq::<usize>::empty(),
        },
{
    assert(seq![op].drop_last() =~= Seq::<NativeOp>::empty());
    assert(touched(Seq::<NativeOp>::empty()) =~= Seq::<usize>::empty());
    assert(touched(seq![op]) =~= match op {
        NativeOp::Destroy { old_pos, .. } => seq![old_pos],
        NativeOp::Update { old_pos, .. } => seq![old_pos],
        NativeOp::Create { .. } => Seq::<usize>::empty(),
    });
}

pub proof fn lemma_owned_split(nodes: Seq<NodeInfo>, lo: int, mid: int, hi: int)
    requires
        lo <= mid <= hi,
    ensures
        owned_positions(nodes, lo, hi) == owned_positions(nodes, lo, mid) + owned_positions(nodes, mid, hi),
    decreases hi - mid,
{
    if mid < hi {
        lemma_owned_split(nodes, lo, mid, hi - 1);
        assert(owned_positions(nodes, lo, hi) =~= owned_positions(nodes, lo, mid) + owned_positions(nodes, mid, hi));
    } else {
        assert(owned_positions(nodes, mid, hi) =~= Seq::<usize>::empty());
        assert(owned_positions(nodes, lo, hi) =~= owned_positions(nodes, lo, mid) + owned_positions(nodes, mid, hi));
    }
}

pub proof fn lemma_destroy_touches_owned(nodes: Seq<NodeInfo>, lo: int, hi: int)
    ensures
        touched(reconciler::destroy_ops(nodes, lo, hi)).to_multiset() == owned_positions(nodes, lo, hi).to_multiset(),
    decreases hi - lo,
{
    broadcast use vstd::seq_lib::lemma_multiset_commutative;
    broadcast use vstd::multiset::group_multiset_axioms;

    if lo < hi {
        let op = NativeOp::Destroy { hwnd: nodes[hi - 1].hwnd, old_pos: (hi - 1) as usize };
        let head = if nodes[hi - 1].owns_hwnd {
            seq![op]
        } else {
            Seq::<NativeOp>::empty()
        };
        let rest = reconciler::destroy_ops(nodes, lo, hi - 1);
        let tail = if nodes[hi - 1].owns_hwnd {
            seq![(hi - 1) as usize]
        } else {
            Seq::<usize>::empty()
        };
        lemma_destroy_touches_owned(nodes, lo, hi - 1);
        lemma_touched_add(head, rest);
        if nodes[hi - 1].owns_hwnd {
            lemma_touched_single(op);
        } else {
            assert(touched(head) =~= Seq::<usize>::empty());
        }
        assert(touched(head) == tail);
        assert((touched(head) + touched(rest)).to_multiset() =~= (owned_positions(nodes, lo, hi - 1)
            + tail).to_multiset());
    } else {
        assert(touched(Seq::<NativeOp>::empty()) =~= Seq::<usize>::empty());
    }
}

pub proof fn lemma_mount_touches_nothing(t: ViewNode, parent: usize, pos: int)
    ensures
        touched(reconciler::mount_ops(t, parent, pos)) == Seq::<usize>::empty(),
    decreases t, 1int,
{
    if tree::kind_is_container(t.kind) {
        lemma_mount_all_touches_nothing(t.children@, parent, pos + 1, t.children@.len() as int);
    } else if t.kind is Empty {
        assert(touched(Seq::<NativeOp>::empty()) =~= Seq::<usize>::empty());
    } else {
        lemma_touched_single(NativeOp::Create { parent, new_pos: pos as usize });
    }
}

pub proof fn lemma_mount_all_touches_nothing(s: Seq<ViewNode>, parent: usize, pos: int, k: int)
    requires
        0 <= k <= s.len(),
    ensures
        touched(reconciler::mount_all_ops(s, parent, pos, k)) == Seq::<usize>::empty(),
    decreases s, k,
{
    if k > 0 {
        lemma_mount_all_touches_nothing(s, parent, pos, k - 1);
        lemma_mount_touches_nothing(s[k - 1], parent, pos + tree::offset(s, k - 1));
        lemma_touched_add(
            reconciler::mount_all_ops(s, parent, pos, k - 1),
            reconciler::mount_ops(s[k - 1], parent, pos + tree::offset(s, k - 1)),
        );
        assert(Seq::<usize>::empty() + Seq::<usize>::empty() =~= Seq::<usize>::empty());
    } else {
        assert(touched(Seq::<NativeOp>::empty()) =~= Seq::<usize>::empty());
    }
}

/// The owned positions of old child `i`.
pub open spec fn child_owned(olds: Seq<ViewNode>, onodes: Seq<NodeInfo>, olo: int, i: int) -> Multiset<usize> {
    owned_positions(onodes, olo + tree::offset(olds, i), olo + tree::offset(olds, i + 1)).to_multiset()
}

/// Old child `i` is taken over by one of the first `k` new children.
pub open spec fn matched_by(olds: Seq<ViewNode>, news: Seq<ViewNode>, k: int, i: int) -> bool {
    exists|j: int| 0 <= j < k && reconciler::match_old(olds, news, j) == Some(i)
}

/// The owned positions of the first `m` old children that none of the first
/// `k` new children takes over.
pub open spec fn rest_owned(
    olds: Seq<ViewNode>,
    news: Seq<ViewNode>,
    onodes: Seq<NodeInfo>,
    olo: int,
    k: int,
    m: int,
) -> Multiset<usize>
    decreases m,
{
    if m <= 0 {
        Multiset::empty()
    } else {
        rest_owned(olds, news, onodes, olo, k, m - 1).add(
            if matched_by(olds, news, k, m - 1) {
                Multiset::empty()
            } else {
                child_owned(olds, onodes, olo, m - 1)
            },
        )
    }
}

/// The owned positions of the first `m` old children.
pub open spec fn all_owned(olds: Seq<ViewNode>, onodes: Seq<NodeInfo>, olo: int, m: int) -> Multiset<usize>
    decreases m,
{
    if m <= 0 {
        Multiset::empty()
    } else {
        all_owned(olds, onodes, olo, m - 1).add(child_owned(olds, onodes, olo, m - 1))
    }
}

pub proof fn lemma_all_owned_is_range(olds: Seq<ViewNode>, onodes: Seq<NodeInfo>, olo: int, m: int)
    requires
        0 <= m <= olds.len(),
    ensures
        all_owned(olds, onodes, olo, m) == owned_positions(onodes, olo, olo + tree::offset(olds, m)).to_multiset(),
    decreases m,
{
    broadcast use vstd::seq_lib::lemma_multiset_commutative;
    broadcast use vstd::multiset::group_multiset_axioms;

    if m > 0 {
        lemma_all_owned_is_range(olds, onodes, olo, m - 1);
        tree::lemma_offset_mono(olds, m - 1, m);
        tree::lemma_offset_mono(olds, 0, m - 1);
        lemma_owned_split(onodes, olo, olo + tree::offset(olds, m - 1), olo + tree::offset(olds, m));
        assert(all_owned(olds, onodes, olo, m) =~= owned_positions(onodes, olo, olo + tree::offset(olds, m)).to_multiset());
    } else {
        assert(olds.take(0) =~= Seq::<ViewNode>::empty());
        assert(owned_positions(onodes, olo, olo) =~= Seq::<usize>::empty());
        lemma_empty_to_multiset();
    }
}

pub proof fn lemma_rest_none_matched(olds: Seq<ViewNode>, news: Seq<ViewNode>, onodes: Seq<NodeInfo>, olo: int, m: int)
    ensures
        rest_owned(olds, news, onodes, olo, 0, m) == all_owned(olds, onodes, olo, m),
    decreases m,
{
    if m > 0 {
        lemma_rest_none_matched(olds, news, onodes, olo, m - 1);
        assert(!matched_by(olds, news, 0, m - 1));
    }
}

/// A new child without a match leaves the unmatched old children as they are.
pub proof fn lemma_rest_unchanged(
    olds: Seq<ViewNode>,
    news: Seq<ViewNode>,
    onodes: Seq<NodeInfo>,
    olo: int,
    k: int,
    m: int,
)
    requires
        0 < k,
        reconciler::match_old(olds, news, k - 1) is None,
    ensures
        rest_owned(olds, news, onodes, olo, k, m) == rest_owned(olds, news, onodes, olo, k - 1, m),
    decreases m,
{
    if m > 0 {
        lemma_rest_unchanged(olds, news, onodes, olo, k, m - 1);
        assert(matched_by(olds, news, k, m - 1) == matched_by(olds, news, k - 1, m - 1)) by {
            if matched_by(olds, news, k, m - 1) {
                let j = choose|j: int| 0 <= j < k && reconciler::match_old(olds, news, j) == Some(m - 1);
                assert(j != k - 1);
            }
        }
    }
}

/// A new child matching old child `i0`, which no earlier new child took,
/// moves `i0`'s windows out of the unmatched rest.
pub proof fn lemma_rest_moves(
    olds: Seq<ViewNode>,
    news: Seq<ViewNode>,
    onodes: Seq<NodeInfo>,
    olo: int,
    k: int,
    i0: int,
    m: int,
)
    requires
        0 < k,
        0 <= i0,
        reconciler::match_old(olds, news, k - 1) == Some(i0),
        !matched_by(olds, news, k - 1, i0),
    ensures
        i0 < m ==> rest_owned(olds, news, onodes, olo, k - 1, m) == rest_owned(olds, news, onodes, olo, k, m).add(
            child_owned(olds, onodes, olo, i0),
        ),
        i0 >= m ==> rest_owned(olds, news, onodes, olo, k - 1, m) == rest_owned(olds, news, onodes, olo, k, m),
    decreases m,
{
    broadcast use vstd::multiset::group_multiset_axioms;

    if m > 0 {
        lemma_rest_moves(olds, news, onodes, olo, k, i0, m - 1);
        if m - 1 == i0 {
            assert(matched_by(olds, news, k, i0));
        } else {
            assert(matched_by(olds, news, k, m - 1) == matched_by(olds, news, k - 1, m - 1)) by {
                if matched_by(olds, news, k, m - 1) {
                    let j = choose|j: int| 0 <= j < k && reconciler::match_old(olds, news, j) == Some(m - 1);
                    assert(j != k - 1);
                }
            }
        }
        assert(rest_owned(olds, news, onodes, olo, k - 1, m) =~= if i0 < m {
            rest_owned(olds, news, onodes, olo, k, m).add(child_owned(olds, onodes, olo, i0))
        } else {
            rest_owned(olds, news, onodes, olo, k, m)
        });
    }
}

/// Under distinct sibling keys, no two new children take over the same old
/// child.
pub proof fn lemma_match_injective(olds: Seq<ViewNode>, news: Seq<ViewNode>, j1: int, j2: int)
    requires
        tree::sibling_keys_distinct(news),
        0 <= j1 < j2 < news.len(),
    ensures
        reconciler::match_old(olds, news, j1) is None || reconciler::match_old(olds, news, j1)
            != reconciler::match_old(olds, news, j2),
{
    if let Some(i) = reconciler::match_old(olds, news, j1) {
        if reconciler::match_old(olds, news, j2) == Some(i) {
            match (tree::key_view(news[j1]), tree::key_view(news[j2])) {
                (Some(k1), Some(k2)) => {
                    reconciler::lemma_last_key_index_bound(olds, k1);
                    reconciler::lemma_last_key_index_bound(olds, k2);
                    assert(news[j1].key is Some);
                },
                (Some(k1), None) => {
                    reconciler::lemma_last_key_index_bound(olds, k1);
                },
                (None, Some(k2)) => {
                    reconciler::lemma_last_key_index_bound(olds, k2);
                },
                (None, None) => {},
            }
        }
    }
}

pub proof fn lemma_unused_touches_rest(
    olds: Seq<ViewNode>,
    news: Seq<ViewNode>,
    onodes: Seq<NodeInfo>,
    olo: int,
    m: int,
)
    ensures
        touched(reconciler::unused_ops(olds, news, onodes, olo, m)).to_multiset() == rest_owned(
            olds,
            news,
            onodes,
            olo,
            news.len() as int,
            m,
        ),
    decreases m,
{
    broadcast use vstd::seq_lib::lemma_multiset_commutative;
    broadcast use vstd::multiset::group_multiset_axioms;

    if m > 0 {
        lemma_unused_touches_rest(olds, news, onodes, olo, m - 1);
        let lo = olo + tree::offset(olds, m - 1);
        let hi = olo + tree::offset(olds, m);
        let tail = if reconciler::matched(olds, news, m - 1) {
            Seq::<NativeOp>::empty()
        } else {
            reconciler::destroy_ops(onodes, lo, hi)
        };
        lemma_touched_add(reconciler::unused_ops(olds, news, onodes, olo, m - 1), tail);
        lemma_destroy_touches_owned(onodes, lo, hi);
        assert(reconciler::matched(olds, news, m - 1) == matched_by(olds, news, news.len() as int, m - 1));
        lemma_empty_to_multiset();
        if reconciler::matched(olds, news, m - 1) {
            assert(touched(tail) =~= Seq::<usize>::empty());
        }
        assert(touched(reconciler::unused_ops(olds, news, onodes, olo, m)).to_multiset() =~= rest_owned(
            olds,
            news,
            onodes,
            olo,
            news.len() as int,
            m,
        ));
    } else {
        assert(touched(Seq::<NativeOp>::empty()) =~= Seq::<usize>::empty());
        lemma_empty_to_multiset();
    }
}

pub proof fn lemma_plan_touches_owned(
    parent: usize,
    old: Option<ViewNode>,
    new: ViewNode,
    onodes: Seq<NodeInfo>,
    lo: int,
    hi: int,
    pos: int,
)
    requires
        lo <= hi,
        tree::keys_unique(new),
        old matches Some(o) ==> reconciler::consistent(o, onodes, lo) && hi == lo + tree::size(o),
    ensures
        touched(reconciler::plan_ops(parent, old, new, onodes, lo, hi, pos)).to_multiset()
            == owned_positions(onodes, lo, hi).to_multiset(),
    decreases new, 1int,
{
    broadcast use vstd::seq_lib::lemma_multiset_commutative;
    broadcast use vstd::multiset::group_multiset_axioms;

    if !reconciler::can_update(old, new) {
        lemma_destroy_touches_owned(onodes, lo, hi);
        lemma_mount_touches_nothing(new, parent, pos);
        lemma_touched_add(reconciler::destroy_ops(onodes, lo, hi), reconciler::mount_ops(new, parent, pos));
        assert(touched(reconciler::destroy_ops(onodes, lo, hi)) + Seq::<usize>::empty()
            =~= touched(reconciler::destroy_ops(onodes, lo, hi)));
    } else {
        let o = old.unwrap();
        let sh = reconciler::shape(onodes);
        assert(sh[lo] == (onodes[lo].subtree_len, onodes[lo].owns_hwnd));
        if tree::kind_is_container(new.kind) {
            let olds = o.children@;
            let news = new.children@;
            let co = reconciler::plan_children_ops(parent, olds, news, onodes, lo + 1, pos + 1, news.len() as int);
            let uo = reconciler::unused_ops(olds, news, onodes, lo + 1, olds.len() as int);
            lemma_children_touch(parent, olds, news, onodes, lo + 1, pos + 1, news.len() as int);
            lemma_rest_cover(olds, news, onodes, lo + 1);
            lemma_unused_touches_rest(olds, news, onodes, lo + 1, olds.len() as int);
            lemma_touched_add(co, uo);
            lemma_all_owned_is_range(olds, onodes, lo + 1, olds.len() as int);
            tree::lemma_sizes_take_all(olds);
            lemma_owned_split(onodes, lo, lo + 1, hi);
            assert(owned_positions(onodes, lo, lo + 1) =~= Seq::<usize>::empty()) by {
                assert(owned_positions(onodes, lo, lo) =~= Seq::<usize>::empty());
            }
            assert(Seq::<usize>::empty() + owned_positions(onodes, lo + 1, hi) =~= owned_positions(onodes, lo + 1, hi));
        } else if new.kind is Empty {
            assert(owned_positions(onodes, lo, lo) =~= Seq::<usize>::empty());
            assert(owned_positions(onodes, lo, hi) =~= Seq::<usize>::empty());
            assert(touched(Seq::<NativeOp>::empty()) =~= Seq::<usize>::empty());
        } else {
            let op = NativeOp::Update { hwnd: onodes[lo].hwnd, old_pos: lo as usize, new_pos: pos as usize };
            lemma_touched_single(op);
            assert(owned_positions(onodes, lo, lo) =~= Seq::<usize>::empty());
            assert(owned_positions(onodes, lo, hi) =~= seq![lo as usize]);
        }
    }
}

/// Before any new child is processed every old child is unmatched; the
/// unmatched rest after all of them is what `unused_ops` destroys.
pub proof fn lemma_rest_cover(olds: Seq<ViewNode>, news: Seq<ViewNode>, onodes: Seq<NodeInfo>, olo: int)
    ensures
        rest_owned(olds, news, onodes, olo, 0, olds.len() as int) == all_owned(olds, onodes, olo, olds.len() as int),
{
    lemma_rest_none_matched(olds, news, onodes, olo, olds.len() as int);
}

pub proof fn lemma_children_touch(
    parent: usize,
    olds: Seq<ViewNode>,
    news: Seq<ViewNode>,
    onodes: Seq<NodeInfo>,
    olo: int,
    cpos: int,
    k: int,
)
    requires
        0 <= k <= news.len(),
        tree::sibling_keys_distinct(news),
        tree::all_keys_unique(news, news.len() as int),
        reconciler::consistent_all(olds, onodes, olo, olds.len() as int),
    ensures
        touched(reconciler::plan_children_ops(parent, olds, news, onodes, olo, cpos, k)).to_multiset().add(
            rest_owned(olds, news, onodes, olo, k, olds.len() as int),
        ) == all_owned(olds, onodes, olo, olds.len() as int),
    decreases news, k,
{
    broadcast use vstd::seq_lib::lemma_multiset_commutative;
    broadcast use vstd::multiset::group_multiset_axioms;

    let on = olds.len() as int;
    if k > 0 {
        lemma_children_touch(parent, olds, news, onodes, olo, cpos, k - 1);
        let po = reconciler::plan_children_ops(parent, olds, news, onodes, olo, cpos, k - 1);
        let p = cpos + tree::offset(news, k - 1);
        lemma_all_keys_unique_get(news, news.len() as int, k - 1);
        reconciler::lemma_match_old_bound(olds, news, k - 1);
        match reconciler::match_old(olds, news, k - 1) {
            Some(i0) => {
                let l = olo + tree::offset(olds, i0);
                let h = olo + tree::offset(olds, i0 + 1);
                let co = reconciler::plan_ops(parent, Some(olds[i0]), news[k - 1], onodes, l, h, p);
                assert(reconciler::plan_children_ops(parent, olds, news, onodes, olo, cpos, k) == po + co);
                reconciler::lemma_consistent_all_get(olds, onodes, olo, on, i0);
                tree::lemma_sizes_take_step(olds, i0);
                lemma_plan_touches_owned(parent, Some(olds[i0]), news[k - 1], onodes, l, h, p);
                lemma_touched_add(po, co);
                assert(!matched_by(olds, news, k - 1, i0)) by {
                    if matched_by(olds, news, k - 1, i0) {
                        let j = choose|j: int| 0 <= j < k - 1 && reconciler::match_old(olds, news, j) == Some(i0);
                        lemma_match_injective(olds, news, j, k - 1);
                    }
                }
                lemma_rest_moves(olds, news, onodes, olo, k, i0, on);
                assert(touched(po + co).to_multiset().add(rest_owned(olds, news, onodes, olo, k, on))
                    =~= touched(po).to_multiset().add(rest_owned(olds, news, onodes, olo, k - 1, on)));
            },
            None => {
                let co = reconciler::plan_ops(parent, None, news[k - 1], onodes, 0, 0, p);
                assert(reconciler::plan_children_ops(parent, olds, news, onodes, olo, cpos, k) == po + co);
                lemma_plan_touches_owned(parent, None, news[k - 1], onodes, 0, 0, p);
                assert(owned_positions(onodes, 0, 0) =~= Seq::<usize>::empty());
                lemma_empty_to_multiset();
                lemma_touched_add(po, co);
                lemma_rest_unchanged(olds, news, onodes, olo, k, on);
                assert(touched(po + co).to_multiset().add(rest_owned(olds, news, onodes, olo, k, on))
                    =~= touched(po).to_multiset().add(rest_owned(olds, news, onodes, olo, k - 1, on)));
            },
        }
    } else {
        lemma_rest_none_matched(olds, news, onodes, olo, on);
        assert(touched(Seq::<NativeOp>::empty()) =~= Seq::<usize>::empty());
        lemma_empty_to_multiset();
        assert(Seq::<usize>::empty().to_multiset().add(all_owned(olds, onodes, olo, on)) =~= all_owned(
            olds,
            onodes,
            olo,
            on,
        ));
    }
}

pub proof fn lemma_all_keys_unique_get(s: Seq<ViewNode>, k: int, i: int)
    requires
        tree::all_keys_unique(s, k),
        0 <= i < k <= s.len(),
    ensures
        tree::keys_unique(s[i]),
    decreases k,
{
    if i < k - 1 {
        lemma_all_keys_unique_get(s, k - 1, i);
    }
}

/// Every window the old tree owns is either destroyed or kept and updated,
/// exactly once, and no other old position is touched: the old positions
/// named by the plan's `Destroy` and `Update` operations are, as a multiset,
/// the positions of the old owned windows.
pub proof fn law_old_windows_destroyed_or_kept_once(
    root: usize,
    old: Option<ViewNode>,
    new: ViewNode,
    onodes: Seq<NodeInfo>,
)
    requires
        tree::keys_unique(new),
        onodes.len() > 0 && old is Some ==> reconciler::describes(old.unwrap(), onodes),
    ensures
        touched(
            reconciler::plan_ops(
                root,
                reconciler::effective_old(old, onodes),
                new,
                onodes,
                0,
                onodes.len() as int,
                0,
            ),
        ).to_multiset() == owned_positions(onodes, 0, onodes.len() as int).to_multiset(),
{
    lemma_plan_touches_owned(
        root,
        reconciler::effective_old(old, onodes),
        new,
        onodes,
        0,
        onodes.len() as int,
        0,
    );
}


// ---------------------------------------------------------------------------
// Re-rendering an unchanged view keeps every window
// ---------------------------------------------------------------------------

/// The operation updates a window in place: from and to the same preorder
/// position.
pub open spec fn update_in_place(op: NativeOp) -> bool {
    op matches NativeOp::Update { old_pos, new_pos, .. } && old_pos == new_pos
}

/// The planned node that keeps retained node `n` where it is.
pub open spec fn keep_node(n: NodeInfo, parent: usize) -> PlannedNode {
    PlannedNode {
        slot: if n.owns_hwnd {
            Slot::Retained(n.hwnd)
        } else {
            Slot::Virtual
        },
        parent_hwnd: parent,
        subtree_len: n.subtree_len,
    }
}

/// Keeping `nodes[lo..hi]` where they are.
pub open spec fn kept(nodes: Seq<NodeInfo>, parent: usize, lo: int, hi: int) -> Seq<PlannedNode> {
    Seq::new((hi - lo) as nat, |i: int| keep_node(nodes[lo + i], parent))
}

pub proof fn lemma_kept_split(nodes: Seq<NodeInfo>, parent: usize, lo: int, mid: int, hi: int)
    requires
        lo <= mid <= hi,
    ensures
        kept(nodes, parent, lo, hi) == kept(nodes, parent, lo, mid) + kept(nodes, parent, mid, hi),
{
    assert(kept(nodes, parent, lo, hi) =~= kept(nodes, parent, lo, mid) + kept(nodes, parent, mid, hi));
}

pub proof fn lemma_last_key_index_is(s: Seq<ViewNode>, k: Seq<char>, j: int)
    requires
        0 <= j < s.len(),
        tree::key_view(s[j]) == Some(k),
        forall|i: int| j < i < s.len() ==> tree::key_view(s[i]) != Some(k),
    ensures
        reconciler::last_key_index(s, k) == Some(j),
    decreases s.len(),
{
    if s.len() - 1 != j {
        assert(tree::key_view(s.last()) != Some(k));
        lemma_last_key_index_is(s.drop_last(), k, j);
    }
}

pub proof fn lemma_self_match(s: Seq<ViewNode>, j: int)
    requires
        tree::sibling_keys_distinct(s),
        0 <= j < s.len(),
    ensures
        reconciler::match_old(s, s, j) == Some(j),
{
    if let Some(k) = tree::key_view(s[j]) {
        assert forall|i: int| j < i < s.len() implies tree::key_view(s[i]) != Some(k) by {
            assert(s[j].key is Some);
        }
        lemma_last_key_index_is(s, k, j);
    }
}

pub proof fn lemma_unused_none(s: Seq<ViewNode>, onodes: Seq<NodeInfo>, olo: int, k: int)
    requires
        tree::sibling_keys_distinct(s),
        0 <= k <= s.len(),
    ensures
        reconciler::unused_ops(s, s, onodes, olo, k) == Seq::<NativeOp>::empty(),
    decreases k,
{
    if k > 0 {
        lemma_unused_none(s, onodes, olo, k - 1);
        lemma_self_match(s, k - 1);
        assert(reconciler::matched(s, s, k - 1));
        assert(Seq::<NativeOp>::empty() + Seq::<NativeOp>::empty() =~= Seq::<NativeOp>::empty());
    }
}

pub proof fn lemma_unchanged_plan(parent: usize, t: ViewNode, onodes: Seq<NodeInfo>, lo: int, pos: int)
    requires
        lo == pos,
        tree::keys_unique(t),
        reconciler::consistent(t, onodes, lo),
    ensures
        reconciler::plan_nodes(parent, Some(t), t, onodes, lo) == kept(onodes, parent, lo, lo + tree::size(t)),
        forall|i: int|
            0 <= i < reconciler::plan_ops(parent, Some(t), t, onodes, lo, lo + tree::size(t), pos).len()
                ==> update_in_place(#[trigger] reconciler::plan_ops(parent, Some(t), t, onodes, lo, lo + tree::size(t), pos)[i]),
    decreases t, 1int,
{
    let sh = reconciler::shape(onodes);
    assert(sh[lo] == (onodes[lo].subtree_len, onodes[lo].owns_hwnd));
    let hi = lo + tree::size(t);
    if tree::kind_is_container(t.kind) {
        let cs = t.children@;
        let n = cs.len() as int;
        lemma_unchanged_children(parent, cs, onodes, lo + 1, pos + 1, n);
        lemma_unused_none(cs, onodes, lo + 1, n);
        tree::lemma_sizes_take_all(cs);
        lemma_kept_split(onodes, parent, lo, lo + 1, hi);
        let root = PlannedNode { slot: Slot::Virtual, parent_hwnd: parent, subtree_len: tree::size(t) as usize };
        assert(kept(onodes, parent, lo, lo + 1) =~= seq![root]);
        let co = reconciler::plan_children_ops(parent, cs, cs, onodes, lo + 1, pos + 1, n);
        assert(co + Seq::<NativeOp>::empty() =~= co);
    } else if t.kind is Empty {
        assert(kept(onodes, parent, lo, hi) =~= reconciler::plan_nodes(parent, Some(t), t, onodes, lo));
    } else {
        assert(kept(onodes, parent, lo, hi) =~= reconciler::plan_nodes(parent, Some(t), t, onodes, lo));
    }
}

pub proof fn lemma_unchanged_children(
    parent: usize,
    s: Seq<ViewNode>,
    onodes: Seq<NodeInfo>,
    olo: int,
    cpos: int,
    k: int,
)
    requires
        olo == cpos,
        0 <= k <= s.len(),
        tree::sibling_keys_distinct(s),
        tree::all_keys_unique(s, s.len() as int),
        reconciler::consistent_all(s, onodes, olo, s.len() as int),
    ensures
        reconciler::plan_children_nodes(parent, s, s, onodes, olo, k) == kept(
            onodes,
            parent,
            olo,
            olo + tree::offset(s, k),
        ),
        forall|i: int|
            0 <= i < reconciler::plan_children_ops(parent, s, s, onodes, olo, cpos, k).len()
                ==> update_in_place(#[trigger] reconciler::plan_children_ops(parent, s, s, onodes, olo, cpos, k)[i]),
    decreases s, k,
{
    if k > 0 {
        lemma_unchanged_children(parent, s, onodes, olo, cpos, k - 1);
        lemma_self_match(s, k - 1);
        lemma_all_keys_unique_get(s, s.len() as int, k - 1);
        reconciler::lemma_consistent_all_get(s, onodes, olo, s.len() as int, k - 1);
        let l = olo + tree::offset(s, k - 1);
        let h = olo + tree::offset(s, k);
        let p = cpos + tree::offset(s, k - 1);
        tree::lemma_sizes_take_step(s, k - 1);
        lemma_unchanged_plan(parent, s[k - 1], onodes, l, p);
        tree::lemma_offset_mono(s, 0, k - 1);
        lemma_kept_split(onodes, parent, olo, l, h);
        let po = reconciler::plan_children_ops(parent, s, s, onodes, olo, cpos, k - 1);
        let co = reconciler::plan_ops(parent, Some(s[k - 1]), s[k - 1], onodes, l, h, p);
        assert(reconciler::plan_children_ops(parent, s, s, onodes, olo, cpos, k) == po + co);
        assert forall|i: int| 0 <= i < (po + co).len() implies update_in_place(#[trigger] (po + co)[i]) by {
            if i < po.len() {
                assert((po + co)[i] == po[i]);
            } else {
                assert((po + co)[i] == co[i - po.len()]);
            }
        }
    } else {
        assert(s.take(0) =~= Seq::<ViewNode>::empty());
        assert(kept(onodes, parent, olo, olo) =~= Seq::<PlannedNode>::empty());
    }
}

/// Reconciling a view against itself keeps every window where it is: no
/// window is destroyed or created, every operation is an update from and to
/// the same preorder position (so of the same view node on both sides), and
/// every planned node keeps its retained node's window (or stays
/// virtual) with its subtree length.
pub proof fn law_unchanged_view_keeps_every_window(root: usize, t: ViewNode, onodes: Seq<NodeInfo>)
    requires
        tree::keys_unique(t),
        reconciler::describes(t, onodes),
    ensures
        reconciler::plan_nodes(root, reconciler::effective_old(Some(t), onodes), t, onodes, 0) == kept(
            onodes,
            root,
            0,
            onodes.len() as int,
        ),
        forall|i: int|
            0 <= i < reconciler::plan_ops(
                root,
                reconciler::effective_old(Some(t), onodes),
                t,
                onodes,
                0,
                onodes.len() as int,
                0,
            ).len() ==> update_in_place(#[trigger] reconciler::plan_ops(
                root,
                reconciler::effective_old(Some(t), onodes),
                t,
                onodes,
                0,
                onodes.len() as int,
                0,
            )[i]),
{
    let sh = reconciler::shape(onodes);
    assert(sh.len() == onodes.len());
    lemma_unchanged_plan(root, t, onodes, 0, 0);
}


// ---------------------------------------------------------------------------
// Native z-order
// ---------------------------------------------------------------------------

/// Every planned node hangs under `parent`.
pub open spec fn planned_under(ps: Seq<PlannedNode>, parent: usize) -> bool {
    forall|i: int| 0 <= i < ps.len() ==> #[trigger] ps[i].parent_hwnd == parent
}

pub proof fn lemma_under_add(x: Seq<PlannedNode>, y: Seq<PlannedNode>, parent: usize)
    requires
        planned_under(x, parent),
        planned_under(y, parent),
    ensures
        planned_under(x + y, parent),
{
    assert forall|i: int| 0 <= i < (x + y).len() implies #[trigger] (x + y)[i].parent_hwnd == parent by {
        if i < x.len() {
            assert((x + y)[i] == x[i]);
        } else {
            assert((x + y)[i] == y[i - x.len()]);
        }
    }
}

pub proof fn lemma_mount_under(t: ViewNode, parent: usize)
    ensures
        planned_under(reconciler::mount_nodes(t, parent), parent),
    decreases t, 1int,
{
    if tree::kind_is_container(t.kind) {
        let root = seq![PlannedNode { slot: Slot::Virtual, parent_hwnd: parent, subtree_len: tree::size(t) as usize }];
        lemma_mount_all_under(t.children@, parent, t.children@.len() as int);
        lemma_under_add(root, reconciler::mount_all_nodes(t.children@, parent, t.children@.len() as int), parent);
    }
}

pub proof fn lemma_mount_all_under(s: Seq<ViewNode>, parent: usize, k: int)
    ensures
        planned_under(reconciler::mount_all_nodes(s, parent, k), parent),
    decreases s, k,
{
    if 0 < k <= s.len() {
        lemma_mount_all_under(s, parent, k - 1);
        lemma_mount_under(s[k - 1], parent);
        lemma_under_add(
            reconciler::mount_all_nodes(s, parent, k - 1),
            reconciler::mount_nodes(s[k - 1], parent),
            parent,
        );
    }
}

pub proof fn lemma_plan_under(parent: usize, old: Option<ViewNode>, new: ViewNode, onodes: Seq<NodeInfo>, lo: int)
    ensures
        planned_under(reconciler::plan_nodes(parent, old, new, onodes, lo), parent),
    decreases new, 1int,
{
    if !reconciler::can_update(old, new) {
        lemma_mount_under(new, parent);
    } else if tree::kind_is_container(new.kind) {
        let root = seq![PlannedNode { slot: Slot::Virtual, parent_hwnd: parent, subtree_len: tree::size(new) as usize }];
        let n = new.children@.len() as int;
        lemma_plan_children_under(parent, old.unwrap().children@, new.children@, onodes, lo + 1, n);
        lemma_under_add(
            root,
            reconciler::plan_children_nodes(parent, old.unwrap().children@, new.children@, onodes, lo + 1, n),
            parent,
        );
    }
}

pub proof fn lemma_plan_children_under(
    parent: usize,
    olds: Seq<ViewNode>,
    news: Seq<ViewNode>,
    onodes: Seq<NodeInfo>,
    olo: int,
    k: int,
)
    ensures
        planned_under(reconciler::plan_children_nodes(parent, olds, news, onodes, olo, k), parent),
    decreases news, k,
{
    if 0 < k <= news.len() {
        let (o, l) = match reconciler::match_old(olds, news, k - 1) {
            Some(i) => (Some(olds[i]), olo + tree::offset(olds, i)),
            None => (None, 0),
        };
        lemma_plan_children_under(parent, olds, news, onodes, olo, k - 1);
        lemma_plan_under(parent, o, news[k - 1], onodes, l);
        lemma_under_add(
            reconciler::plan_children_nodes(parent, olds, news, onodes, olo, k - 1),
            reconciler::plan_nodes(parent, o, news[k - 1], onodes, l),
            parent,
        );
    }
}

/// After a commit, every retained node hangs under the root window the
/// reconciliation was given.
pub proof fn law_committed_nodes_hang_under_root(
    root: usize,
    old: Option<ViewNode>,
    new: ViewNode,
    onodes: Seq<NodeInfo>,
    created: Seq<usize>,
)
    ensures
        forall|i: int|
            0 <= i < reconciler::resolve(
                reconciler::plan_nodes(root, reconciler::effective_old(old, onodes), new, onodes, 0),
                created,
            ).len() ==> (#[trigger] reconciler::resolve(
                reconciler::plan_nodes(root, reconciler::effective_old(old, onodes), new, onodes, 0),
                created,
            )[i]).parent_hwnd == root,
{
    lemma_plan_under(root, reconciler::effective_old(old, onodes), new, onodes, 0);
}

/// Two node lists with the same owned windows, position by position.
pub open spec fn same_owned(a: Seq<NodeInfo>, b: Seq<NodeInfo>) -> bool {
    &&& a.len() == b.len()
    &&& forall|i: int|
        0 <= i < a.len() ==> (#[trigger] a[i]).owns_hwnd == b[i].owns_hwnd && (a[i].owns_hwnd ==> a[i].hwnd
            == b[i].hwnd && a[i].parent_hwnd == b[i].parent_hwnd)
}

pub proof fn lemma_native_order_same(a: Seq<NodeInfo>, b: Seq<NodeInfo>, parent: usize)
    requires
        same_owned(a, b),
    ensures
        reconciler::native_order(a, parent) == reconciler::native_order(b, parent),
    decreases a.len(),
{
    if a.len() > 0 {
        assert(a.last() == a[a.len() - 1]);
        assert forall|i: int| 0 <= i < a.drop_last().len() implies (#[trigger] a.drop_last()[i]).owns_hwnd
            == b.drop_last()[i].owns_hwnd && (a.drop_last()[i].owns_hwnd ==> a.drop_last()[i].hwnd
            == b.drop_last()[i].hwnd && a.drop_last()[i].parent_hwnd == b.drop_last()[i].parent_hwnd) by {
            assert(a.drop_last()[i] == a[i]);
        }
        lemma_native_order_same(a.drop_last(), b.drop_last(), parent);
    }
}

pub proof fn lemma_no_reorder_needed(
    parents: Seq<usize>,
    old_nodes: Seq<NodeInfo>,
    new_nodes: Seq<NodeInfo>,
    ps: Seq<PlannedNode>,
    k: int,
)
    requires
        forall|p: usize| !reconciler::needs_reorder(old_nodes, new_nodes, ps, p),
    ensures
        reconciler::reorder_list(parents, old_nodes, new_nodes, ps, k).len() == 0,
    decreases k,
{
    if 0 < k <= parents.len() {
        assert(!reconciler::needs_reorder(old_nodes, new_nodes, ps, parents[k - 1]));
        lemma_no_reorder_needed(parents, old_nodes, new_nodes, ps, k - 1);
    }
}

/// Re-rendering an unchanged view, over a retained tree that describes it
/// and whose windows all hang under the root, asks for no z-order rewrite
/// at all.
pub proof fn law_unchanged_view_needs_no_reorder(root: usize, t: ViewNode, onodes: Seq<NodeInfo>)
    requires
        tree::keys_unique(t),
        reconciler::describes(t, onodes),
        forall|i: int| 0 <= i < onodes.len() ==> (#[trigger] onodes[i]).parent_hwnd == root,
    ensures
        reconciler::reorders_for(
            onodes,
            reconciler::plan_nodes(root, reconciler::effective_old(Some(t), onodes), t, onodes, 0),
            Seq::<usize>::empty(),
        ).len() == 0,
{
    law_unchanged_view_keeps_every_window(root, t, onodes);
    let ps = kept(onodes, root, 0, onodes.len() as int);
    let nn = reconciler::resolve(ps, Seq::<usize>::empty());
    assert forall|i: int| 0 <= i < onodes.len() implies (#[trigger] onodes[i]).owns_hwnd == nn[i].owns_hwnd
        && (onodes[i].owns_hwnd ==> onodes[i].hwnd == nn[i].hwnd && onodes[i].parent_hwnd
        == nn[i].parent_hwnd) by {
        assert(ps[i] == keep_node(onodes[i], root));
        assert(nn[i] == reconciler::resolve_node(ps, Seq::<usize>::empty(), i));
    }
    assert forall|p: usize| !reconciler::needs_reorder(onodes, nn, ps, p) by {
        lemma_native_order_same(onodes, nn, p);
        if reconciler::creates_under(ps, p) {
            let i = choose|i: int| 0 <= i < ps.len() && ps[i].slot is Fresh && ps[i].parent_hwnd == p;
            assert(ps[i] == keep_node(onodes[i], root));
        }
    }
    let parents = reconciler::parents_in_order(nn);
    lemma_no_reorder_needed(parents, onodes, nn, ps, parents.len() as int);
}


// ---------------------------------------------------------------------------
// Which window a child gets
// ---------------------------------------------------------------------------

/// The planned nodes of new child `j` on its own.
pub open spec fn child_plan(
    parent: usize,
    olds: Seq<ViewNode>,
    news: Seq<ViewNode>,
    onodes: Seq<NodeInfo>,
    olo: int,
    j: int,
) -> Seq<PlannedNode> {
    match reconciler::match_old(olds, news, j) {
        Some(i) => reconciler::plan_nodes(parent, Some(olds[i]), news[j], onodes, olo + tree::offset(olds, i)),
        None => reconciler::plan_nodes(parent, None, news[j], onodes, 0),
    }
}

pub proof fn lemma_child_root(
    parent: usize,
    olds: Seq<ViewNode>,
    news: Seq<ViewNode>,
    onodes: Seq<NodeInfo>,
    olo: int,
    k: int,
    j: int,
)
    requires
        0 <= j < k <= news.len(),
    ensures
        tree::offset(news, j) < reconciler::plan_children_nodes(parent, olds, news, onodes, olo, k).len(),
        reconciler::plan_children_nodes(parent, olds, news, onodes, olo, k)[tree::offset(news, j) as int]
            == child_plan(parent, olds, news, onodes, olo, j)[0],
    decreases k,
{
    let prev = reconciler::plan_children_nodes(parent, olds, news, onodes, olo, k - 1);
    let c = child_plan(parent, olds, news, onodes, olo, k - 1);
    assert(reconciler::plan_children_nodes(parent, olds, news, onodes, olo, k) == prev + c);
    reconciler::lemma_plan_children_nodes_len(parent, olds, news, onodes, olo, k - 1);
    match reconciler::match_old(olds, news, k - 1) {
        Some(i) => reconciler::lemma_plan_nodes_len(
            parent,
            Some(olds[i]),
            news[k - 1],
            onodes,
            olo + tree::offset(olds, i),
        ),
        None => reconciler::lemma_plan_nodes_len(parent, None, news[k - 1], onodes, 0),
    }
    assert(tree::size(news[k - 1]) >= 1);
    if j == k - 1 {
        assert((prev + c)[prev.len() as int] == c[0]);
    } else {
        lemma_child_root(parent, olds, news, onodes, olo, k - 1, j);
        tree::lemma_offset_mono(news, j + 1, k - 1);
        tree::lemma_sizes_take_step(news, j);
        assert(tree::size(news[j]) >= 1);
        assert((prev + c)[tree::offset(news, j) as int] == prev[tree::offset(news, j) as int]);
    }
}

/// A new child that takes over an old sibling of its own kind which owns a
/// window keeps that window, in place of a new one. A keyed child takes
/// over the old sibling with the same key, wherever it stood; an unkeyed
/// child takes over the unkeyed old sibling at the same index.
pub proof fn law_matched_child_keeps_its_window(
    root: usize,
    old: ViewNode,
    new: ViewNode,
    onodes: Seq<NodeInfo>,
    created: Seq<usize>,
    i: int,
    j: int,
)
    requires
        reconciler::describes(old, onodes),
        tree::keys_unique(old),
        tree::kind_is_container(new.kind),
        old.kind == new.kind,
        tree::key_view(old) == tree::key_view(new),
        0 <= i < old.children@.len(),
        0 <= j < new.children@.len(),
        (new.children@[j].key is Some && tree::key_view(new.children@[j]) == tree::key_view(
            old.children@[i],
        )) || (i == j && new.children@[j].key is None && old.children@[i].key is None),
        new.children@[j].kind == old.children@[i].kind,
        !tree::kind_is_virtual(new.children@[j].kind),
    ensures
        1 + tree::offset(new.children@, j) < reconciler::resolve(
            reconciler::plan_nodes(root, reconciler::effective_old(Some(old), onodes), new, onodes, 0),
            created,
        ).len(),
        reconciler::resolve(
            reconciler::plan_nodes(root, reconciler::effective_old(Some(old), onodes), new, onodes, 0),
            created,
        )[1 + tree::offset(new.children@, j) as int] == (NodeInfo {
            hwnd: onodes[1 + tree::offset(old.children@, i) as int].hwnd,
            owns_hwnd: true,
            parent_hwnd: root,
            subtree_len: 1,
        }),
{
    let olds = old.children@;
    let news = new.children@;
    let n = news.len() as int;
    assert(onodes.len() > 0);
    let ps = reconciler::plan_nodes(root, Some(old), new, onodes, 0);
    let head = seq![PlannedNode { slot: Slot::Virtual, parent_hwnd: root, subtree_len: tree::size(new) as usize }];
    let rest = reconciler::plan_children_nodes(root, olds, news, onodes, 1, n);
    assert(ps == head + rest);
    lemma_child_root(root, olds, news, onodes, 1, n, j);
    if let Some(k) = tree::key_view(news[j]) {
        assert forall|m: int| i < m < olds.len() implies tree::key_view(olds[m]) != Some(k) by {
            assert(olds[i].key is Some);
        }
        lemma_last_key_index_is(olds, k, i);
    }
    assert(reconciler::match_old(olds, news, j) == Some(i));
    let lo = 1 + tree::offset(olds, i) as int;
    assert(child_plan(root, olds, news, onodes, 1, j) == seq![
        PlannedNode { slot: Slot::Retained(onodes[lo].hwnd), parent_hwnd: root, subtree_len: 1 },
    ]);
    let idx = 1 + tree::offset(news, j) as int;
    assert(ps[idx] == rest[idx - 1]);
    assert(reconciler::resolve(ps, created)[idx] == reconciler::resolve_node(ps, created, idx));
}

/// A new child that owns a window but takes over no old sibling of its own
/// kind (its key is new, or the sibling with its key has another kind; or,
/// unkeyed, the old sibling at its index is missing, keyed or of another
/// kind) is planned a freshly created window.
pub proof fn law_unmatched_child_gets_new_window(
    root: usize,
    old: ViewNode,
    new: ViewNode,
    onodes: Seq<NodeInfo>,
    j: int,
)
    requires
        reconciler::describes(old, onodes),
        tree::kind_is_container(new.kind),
        old.kind == new.kind,
        tree::key_view(old) == tree::key_view(new),
        0 <= j < new.children@.len(),
        !tree::kind_is_virtual(new.children@[j].kind),
        (new.children@[j].key is Some && forall|i: int|
            0 <= i < old.children@.len() && tree::key_view(#[trigger] old.children@[i]) == tree::key_view(
                new.children@[j],
            ) ==> old.children@[i].kind != new.children@[j].kind) || (new.children@[j].key is None && (j
            >= old.children@.len() || old.children@[j].key is Some || old.children@[j].kind
            != new.children@[j].kind)),
    ensures
        1 + tree::offset(new.children@, j) < reconciler::plan_nodes(
            root,
            reconciler::effective_old(Some(old), onodes),
            new,
            onodes,
            0,
        ).len(),
        reconciler::plan_nodes(root, reconciler::effective_old(Some(old), onodes), new, onodes, 0)[1
            + tree::offset(new.children@, j) as int] == (PlannedNode {
            slot: Slot::Fresh,
            parent_hwnd: root,
            subtree_len: 1,
        }),
{
    let olds = old.children@;
    let news = new.children@;
    let n = news.len() as int;
    assert(onodes.len() > 0);
    let ps = reconciler::plan_nodes(root, Some(old), new, onodes, 0);
    let head = seq![PlannedNode { slot: Slot::Virtual, parent_hwnd: root, subtree_len: tree::size(new) as usize }];
    let rest = reconciler::plan_children_nodes(root, olds, news, onodes, 1, n);
    assert(ps == head + rest);
    lemma_child_root(root, olds, news, onodes, 1, n, j);
    if let Some(k) = tree::key_view(news[j]) {
        reconciler::lemma_last_key_index_bound(olds, k);
    }
    match reconciler::match_old(olds, news, j) {
        Some(i) => {
            assert(!reconciler::can_update(Some(olds[i]), news[j]));
        },
        None => {},
    }
    assert(child_plan(root, olds, news, onodes, 1, j) == reconciler::mount_nodes(news[j], root));
    let idx = 1 + tree::offset(news, j) as int;
    assert(ps[idx] == rest[idx - 1]);
}


// ---------------------------------------------------------------------------
// Keys are transparent
// ---------------------------------------------------------------------------

/// The node `t` carrying `key`.
pub open spec fn with_key(t: ViewNode, key: String) -> ViewNode {
    ViewNode { key: Some(key), ..t }
}

/// A key adds no node of its own: the keyed node has the preorder size of
/// the node without it, owns a window exactly when that one does, and a
/// first mount plans the same nodes for both.
pub proof fn law_key_adds_no_node(t: ViewNode, key: String, parent: usize)
    ensures
        tree::size(with_key(t, key)) == tree::size(t),
        tree::kind_is_virtual(with_key(t, key).kind) == tree::kind_is_virtual(t.kind),
        reconciler::mount_nodes(with_key(t, key), parent) == reconciler::mount_nodes(t, parent),
{
}


// ---------------------------------------------------------------------------
// Any change of a parent's window order is rewritten
// ---------------------------------------------------------------------------

pub proof fn lemma_native_order_parent(nodes: Seq<NodeInfo>, p: usize)
    requires
        reconciler::native_order(nodes, p).len() > 0,
    ensures
        reconciler::parents_in_order(nodes).contains(p),
    decreases nodes.len(),
{
    let d = nodes.drop_last();
    let n = nodes.last();
    let prev = reconciler::parents_in_order(d);
    if n.owns_hwnd && n.parent_hwnd == p {
        if !prev.contains(p) {
            assert(prev.push(p)[prev.len() as int] == p);
        }
    } else {
        assert(reconciler::native_order(nodes, p) =~= reconciler::native_order(d, p));
        lemma_native_order_parent(d, p);
        if n.owns_hwnd && !prev.contains(n.parent_hwnd) {
            let j = choose|j: int| 0 <= j < prev.len() && prev[j] == p;
            assert(prev.push(n.parent_hwnd)[j] == p);
        }
    }
}

pub proof fn lemma_reorder_list_has(
    parents: Seq<usize>,
    old_nodes: Seq<NodeInfo>,
    new_nodes: Seq<NodeInfo>,
    ps: Seq<PlannedNode>,
    k: int,
    j: int,
)
    requires
        0 <= j < k <= parents.len(),
        reconciler::native_order(old_nodes, parents[j]) != reconciler::native_order(new_nodes, parents[j]),
    ensures
        reconciler::reorder_list(parents, old_nodes, new_nodes, ps, k).contains(
            (parents[j], reconciler::native_order(new_nodes, parents[j])),
        ),
    decreases k,
{
    let prev = reconciler::reorder_list(parents, old_nodes, new_nodes, ps, k - 1);
    let x = (parents[j], reconciler::native_order(new_nodes, parents[j]));
    if j == k - 1 {
        assert(prev.push(x)[prev.len() as int] == x);
    } else {
        lemma_reorder_list_has(parents, old_nodes, new_nodes, ps, k - 1, j);
        let i = choose|i: int| 0 <= i < prev.len() && prev[i] == x;
        let p = parents[k - 1];
        if reconciler::needs_reorder(old_nodes, new_nodes, ps, p) {
            assert(prev.push((p, reconciler::native_order(new_nodes, p)))[i] == x);
        }
    }
}

pub proof fn lemma_reorder_list_entries(
    parents: Seq<usize>,
    old_nodes: Seq<NodeInfo>,
    new_nodes: Seq<NodeInfo>,
    ps: Seq<PlannedNode>,
    k: int,
)
    ensures
        forall|i: int|
            0 <= i < reconciler::reorder_list(parents, old_nodes, new_nodes, ps, k).len() ==> {
                let r = #[trigger] reconciler::reorder_list(parents, old_nodes, new_nodes, ps, k)[i];
                &&& parents.contains(r.0)
                &&& r.1 == reconciler::native_order(new_nodes, r.0)
                &&& (reconciler::native_order(old_nodes, r.0) != r.1 || reconciler::creates_under(ps, r.0))
            },
    decreases k,
{
    if 0 < k <= parents.len() {
        lemma_reorder_list_entries(parents, old_nodes, new_nodes, ps, k - 1);
        let prev = reconciler::reorder_list(parents, old_nodes, new_nodes, ps, k - 1);
        let p = parents[k - 1];
        let x = (p, reconciler::native_order(new_nodes, p));
        if reconciler::needs_reorder(old_nodes, new_nodes, ps, p) {
            assert forall|i: int| 0 <= i < prev.push(x).len() implies {
                let r = #[trigger] prev.push(x)[i];
                &&& parents.contains(r.0)
                &&& r.1 == reconciler::native_order(new_nodes, r.0)
                &&& (reconciler::native_order(old_nodes, r.0) != r.1 || reconciler::creates_under(ps, r.0))
            } by {
                if i < prev.len() {
                    assert(prev.push(x)[i] == prev[i]);
                } else {
                    assert(prev.push(x)[i] == x);
                }
            }
        }
    }
}

/// A commit rewrites the z-order of every parent whose owned windows now
/// stand in another order, or are other windows, than before: whenever the
/// sequence of a parent's owned windows changed in any place, the commit
/// returns that parent with its new window sequence. Conversely every
/// rewrite it returns is for such a parent (or one that gained a created
/// window) and carries exactly the parent's new window sequence.
pub proof fn law_any_order_change_is_rewritten(
    old_nodes: Seq<NodeInfo>,
    ps: Seq<PlannedNode>,
    created: Seq<usize>,
    p: usize,
)
    requires
        reconciler::native_order(reconciler::resolve(ps, created), p).len() > 0,
        reconciler::native_order(old_nodes, p) != reconciler::native_order(reconciler::resolve(ps, created), p),
    ensures
        reconciler::reorders_for(old_nodes, ps, created).contains(
            (p, reconciler::native_order(reconciler::resolve(ps, created), p)),
        ),
        forall|i: int|
            0 <= i < reconciler::reorders_for(old_nodes, ps, created).len() ==> {
                let r = #[trigger] reconciler::reorders_for(old_nodes, ps, created)[i];
                &&& r.1 == reconciler::native_order(reconciler::resolve(ps, created), r.0)
                &&& (reconciler::native_order(old_nodes, r.0) != r.1 || reconciler::creates_under(ps, r.0))
            },
{
    let nn = reconciler::resolve(ps, created);
    let parents = reconciler::parents_in_order(nn);
    lemma_native_order_parent(nn, p);
    let j = choose|j: int| 0 <= j < parents.len() && parents[j] == p;
    lemma_reorder_list_has(parents, old_nodes, nn, ps, parents.len() as int, j);
    lemma_reorder_list_entries(parents, old_nodes, nn, ps, parents.len() as int);
}

} // verus!
