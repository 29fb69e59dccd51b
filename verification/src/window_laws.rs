//! What a reconciliation does to windows: which are kept and updated, which
//! are destroyed, and which the committed tree owns.
use vstd::prelude::*;
use vstd::multiset::Multiset;
use crate::tree;
use crate::tree::ViewNode;
use crate::reconciler;
use crate::reconciler::{NativeOp, NodeInfo, PlannedNode, Slot};
use crate::reconcile_laws;

verus! {

// ---------------------------------------------------------------------------
// Collecting from a sequence
// ---------------------------------------------------------------------------

/// The concatenation of `f` over the elements of `s`, in order.
pub open spec fn collect<A, B>(s: Seq<A>, f: spec_fn(A) -> Seq<B>) -> Seq<B>
    decreases s.len(),
{
    if s.len() == 0 {
        Seq::empty()
    } else {
        collect(s.drop_last(), f) + f(s.last())
    }
}

pub proof fn lemma_collect_add<A, B>(x: Seq<A>, y: Seq<A>, f: spec_fn(A) -> Seq<B>)
    ensures
        collect(x + y, f) == collect(x, f) + collect(y, f),
    decreases y.len(),
{
    if y.len() == 0 {
        assert(x + y =~= x);
        assert(collect(x, f) + collect(y, f) =~= collect(x, f));
    } else {
        lemma_collect_add(x, y.drop_last(), f);
        assert((x + y).drop_last() =~= x + y.drop_last());
        assert((x + y).last() == y.last());
        assert(collect(x + y, f) =~= collect(x, f) + collect(y, f));
    }
}

pub proof fn lemma_collect_single<A, B>(a: A, f: spec_fn(A) -> Seq<B>)
    ensures
        collect(seq![a], f) == f(a),
{
    assert(seq![a].drop_last() =~= Seq::<A>::empty());
    assert(collect(Seq::<A>::empty(), f) =~= Seq::<B>::empty());
    assert(collect(seq![a], f) =~= f(a));
}

// ---------------------------------------------------------------------------
// Windows named by operations and planned nodes
// ---------------------------------------------------------------------------

/// The window an operation destroys, if it destroys one.
pub open spec fn destroyed_by(op: NativeOp) -> Seq<usize> {
    match op {
        NativeOp::Destroy { hwnd, .. } => seq![hwnd],
        _ => Seq::empty(),
    }
}

/// The window an operation updates, if it updates one.
pub open spec fn updated_by(op: NativeOp) -> Seq<usize> {
    match op {
        NativeOp::Update { hwnd, .. } => seq![hwnd],
        _ => Seq::empty(),
    }
}

/// The window an operation updates, with the new position it updates it
/// to, if it updates one.
pub open spec fn update_of(op: NativeOp) -> Seq<(usize, usize)> {
    match op {
        NativeOp::Update { hwnd, new_pos, .. } => seq![(hwnd, new_pos)],
        _ => Seq::empty(),
    }
}

/// The windows the operations destroy, in order.
pub open spec fn destroyed_hwnds(ops: Seq<NativeOp>) -> Seq<usize> {
    collect(ops, |op: NativeOp| destroyed_by(op))
}

/// The windows the operations update, in order.
pub open spec fn updated_hwnds(ops: Seq<NativeOp>) -> Seq<usize> {
    collect(ops, |op: NativeOp| updated_by(op))
}

/// The updates, as (window, new position), in order.
pub open spec fn updates(ops: Seq<NativeOp>) -> Seq<(usize, usize)> {
    collect(ops, |op: NativeOp| update_of(op))
}

/// The window a planned node keeps, if it keeps one.
pub open spec fn kept_by(p: PlannedNode) -> Seq<usize> {
    match p.slot {
        Slot::Retained(h) => seq![h],
        _ => Seq::empty(),
    }
}

/// The windows the planned nodes keep, in preorder.
pub open spec fn kept_hwnds(ps: Seq<PlannedNode>) -> Seq<usize> {
    collect(ps, |p: PlannedNode| kept_by(p))
}

/// The window a retained node owns, if it owns one.
pub open spec fn owned_by(n: NodeInfo) -> Seq<usize> {
    if n.owns_hwnd {
        seq![n.hwnd]
    } else {
        Seq::empty()
    }
}

/// The windows the retained nodes own, in preorder.
pub open spec fn owned_hwnds(nodes: Seq<NodeInfo>) -> Seq<usize> {
    collect(nodes, |n: NodeInfo| owned_by(n))
}

/// The kept windows with the preorder positions (counted from `base`) of
/// the planned nodes that keep them.
pub open spec fn retained_at(ps: Seq<PlannedNode>, base: int) -> Seq<(usize, usize)>
    decreases ps.len(),
{
    if ps.len() == 0 {
        Seq::empty()
    } else {
        retained_at(ps.drop_last(), base) + match ps.last().slot {
            Slot::Retained(h) => seq![(h, (base + ps.len() - 1) as usize)],
            _ => Seq::<(usize, usize)>::empty(),
        }
    }
}

pub proof fn lemma_retained_at_add(x: Seq<PlannedNode>, y: Seq<PlannedNode>, base: int)
    ensures
        retained_at(x + y, base) == retained_at(x, base) + retained_at(y, base + x.len()),
    decreases y.len(),
{
    if y.len() == 0 {
        assert(x + y =~= x);
        assert(retained_at(x, base) + retained_at(y, base + x.len()) =~= retained_at(x, base));
    } else {
        lemma_retained_at_add(x, y.drop_last(), base);
        assert((x + y).drop_last() =~= x + y.drop_last());
        assert((x + y).last() == y.last());
        assert(retained_at(x + y, base) =~= retained_at(x, base) + retained_at(y, base + x.len()));
    }
}

pub proof fn lemma_retained_at_single(p: PlannedNode, base: int)
    ensures
        retained_at(seq![p], base) == match p.slot {
            Slot::Retained(h) => seq![(h, base as usize)],
            _ => Seq::<(usize, usize)>::empty(),
        },
{
    assert(seq![p].drop_last() =~= Seq::<PlannedNode>::empty());
    assert(retained_at(Seq::<PlannedNode>::empty(), base) =~= Seq::<(usize, usize)>::empty());
    assert(retained_at(seq![p], base) =~= match p.slot {
        Slot::Retained(h) => seq![(h, base as usize)],
        _ => Seq::<(usize, usize)>::empty(),
    });
}

// ---------------------------------------------------------------------------
// Each kept window is updated exactly once, at its new position
// ---------------------------------------------------------------------------

pub proof fn lemma_destroy_updates_nothing(nodes: Seq<NodeInfo>, lo: int, hi: int)
    ensures
        updates(reconciler::destroy_ops(nodes, lo, hi)) == Seq::<(usize, usize)>::empty(),
    decreases hi - lo,
{
    let f = |op: NativeOp| update_of(op);
    if lo < hi {
        let op = NativeOp::Destroy { hwnd: nodes[hi - 1].hwnd, old_pos: (hi - 1) as usize };
        let head = if nodes[hi - 1].owns_hwnd {
            seq![op]
        } else {
            Seq::<NativeOp>::empty()
        };
        lemma_destroy_updates_nothing(nodes, lo, hi - 1);
        lemma_collect_add(head, reconciler::destroy_ops(nodes, lo, hi - 1), f);
        lemma_collect_single(op, f);
        assert(collect(Seq::<NativeOp>::empty(), f) =~= Seq::<(usize, usize)>::empty());
        assert(collect(head, f) =~= Seq::<(usize, usize)>::empty());
        assert(updates(reconciler::destroy_ops(nodes, lo, hi)) =~= Seq::<(usize, usize)>::empty());
    } else {
        assert(updates(reconciler::destroy_ops(nodes, lo, hi)) =~= Seq::<(usize, usize)>::empty());
    }
}

pub proof fn lemma_unused_updates_nothing(
    olds: Seq<ViewNode>,
    news: Seq<ViewNode>,
    onodes: Seq<NodeInfo>,
    olo: int,
    k: int,
)
    ensures
        updates(reconciler::unused_ops(olds, news, onodes, olo, k)) == Seq::<(usize, usize)>::empty(),
    decreases k,
{
    let f = |op: NativeOp| update_of(op);
    if k > 0 {
        lemma_unused_updates_nothing(olds, news, onodes, olo, k - 1);
        let tail = if reconciler::matched(olds, news, k - 1) {
            Seq::<NativeOp>::empty()
        } else {
            reconciler::destroy_ops(onodes, olo + tree::offset(olds, k - 1), olo + tree::offset(olds, k))
        };
        lemma_destroy_updates_nothing(onodes, olo + tree::offset(olds, k - 1), olo + tree::offset(olds, k));
        lemma_collect_add(reconciler::unused_ops(olds, news, onodes, olo, k - 1), tail, f);
        assert(collect(Seq::<NativeOp>::empty(), f) =~= Seq::<(usize, usize)>::empty());
        assert(updates(reconciler::unused_ops(olds, news, onodes, olo, k)) =~= Seq::<(usize, usize)>::empty());
    } else {
        assert(updates(reconciler::unused_ops(olds, news, onodes, olo, k)) =~= Seq::<(usize, usize)>::empty());
    }
}

pub proof fn lemma_mount_updates_nothing(t: ViewNode, parent: usize, pos: int)
    ensures
        updates(reconciler::mount_ops(t, parent, pos)) == Seq::<(usize, usize)>::empty(),
        retained_at(reconciler::mount_nodes(t, parent), pos) == Seq::<(usize, usize)>::empty(),
    decreases t, 1int,
{
    let f = |op: NativeOp| update_of(op);
    if tree::kind_is_container(t.kind) {
        let root = seq![PlannedNode { slot: Slot::Virtual, parent_hwnd: parent, subtree_len: tree::size(t) as usize }];
        let n = t.children@.len() as int;
        lemma_mount_all_updates_nothing(t.children@, parent, pos + 1, n);
        lemma_retained_at_add(root, reconciler::mount_all_nodes(t.children@, parent, n), pos);
        lemma_retained_at_single(root[0], pos);
        assert(root =~= seq![root[0]]);
        assert(retained_at(reconciler::mount_nodes(t, parent), pos) =~= Seq::<(usize, usize)>::empty());
    } else if t.kind is Empty {
        let m = reconciler::mount_nodes(t, parent);
        lemma_retained_at_single(m[0], pos);
        assert(m =~= seq![m[0]]);
        assert(updates(reconciler::mount_ops(t, parent, pos)) =~= Seq::<(usize, usize)>::empty());
    } else {
        let m = reconciler::mount_nodes(t, parent);
        let o = reconciler::mount_ops(t, parent, pos);
        lemma_retained_at_single(m[0], pos);
        assert(m =~= seq![m[0]]);
        lemma_collect_single(o[0], f);
        assert(o =~= seq![o[0]]);
        assert(updates(o) =~= Seq::<(usize, usize)>::empty());
    }
}

pub proof fn lemma_mount_all_updates_nothing(s: Seq<ViewNode>, parent: usize, pos: int, k: int)
    requires
        0 <= k <= s.len(),
    ensures
        updates(reconciler::mount_all_ops(s, parent, pos, k)) == Seq::<(usize, usize)>::empty(),
        retained_at(reconciler::mount_all_nodes(s, parent, k), pos) == Seq::<(usize, usize)>::empty(),
    decreases s, k,
{
    let f = |op: NativeOp| update_of(op);
    if k > 0 {
        lemma_mount_all_updates_nothing(s, parent, pos, k - 1);
        let pn = reconciler::mount_all_nodes(s, parent, k - 1);
        let po = reconciler::mount_all_ops(s, parent, pos, k - 1);
        let cn = reconciler::mount_nodes(s[k - 1], parent);
        let co = reconciler::mount_ops(s[k - 1], parent, pos + tree::offset(s, k - 1));
        lemma_mount_updates_nothing(s[k - 1], parent, pos + tree::offset(s, k - 1));
        lemma_mount_updates_nothing(s[k - 1], parent, pos + pn.len());
        lemma_collect_add(po, co, f);
        lemma_retained_at_add(pn, cn, pos);
        assert(updates(reconciler::mount_all_ops(s, parent, pos, k)) =~= Seq::<(usize, usize)>::empty());
        assert(retained_at(reconciler::mount_all_nodes(s, parent, k), pos) =~= Seq::<(usize, usize)>::empty());
    } else {
        assert(updates(Seq::<NativeOp>::empty()) =~= Seq::<(usize, usize)>::empty());
        assert(retained_at(Seq::<PlannedNode>::empty(), pos) =~= Seq::<(usize, usize)>::empty());
    }
}

pub proof fn lemma_plan_updates(
    parent: usize,
    old: Option<ViewNode>,
    new: ViewNode,
    onodes: Seq<NodeInfo>,
    lo: int,
    hi: int,
    pos: int,
)
    ensures
        updates(reconciler::plan_ops(parent, old, new, onodes, lo, hi, pos)) == retained_at(
            reconciler::plan_nodes(parent, old, new, onodes, lo),
            pos,
        ),
    decreases new, 1int,
{
    let f = |op: NativeOp| update_of(op);
    if !reconciler::can_update(old, new) {
        lemma_destroy_updates_nothing(onodes, lo, hi);
        lemma_mount_updates_nothing(new, parent, pos);
        lemma_collect_add(reconciler::destroy_ops(onodes, lo, hi), reconciler::mount_ops(new, parent, pos), f);
        assert(updates(reconciler::plan_ops(parent, old, new, onodes, lo, hi, pos)) =~= Seq::<(usize, usize)>::empty());
    } else if tree::kind_is_container(new.kind) {
        let olds = old.unwrap().children@;
        let news = new.children@;
        let root = seq![PlannedNode { slot: Slot::Virtual, parent_hwnd: parent, subtree_len: tree::size(new) as usize }];
        let cn = reconciler::plan_children_nodes(parent, olds, news, onodes, lo + 1, news.len() as int);
        let co = reconciler::plan_children_ops(parent, olds, news, onodes, lo + 1, pos + 1, news.len() as int);
        let uo = reconciler::unused_ops(olds, news, onodes, lo + 1, olds.len() as int);
        lemma_plan_children_updates(parent, olds, news, onodes, lo + 1, pos + 1, news.len() as int);
        lemma_unused_updates_nothing(olds, news, onodes, lo + 1, olds.len() as int);
        lemma_collect_add(co, uo, f);
        lemma_retained_at_add(root, cn, pos);
        lemma_retained_at_single(root[0], pos);
        assert(root =~= seq![root[0]]);
        assert(updates(co) + updates(uo) =~= updates(co));
        assert(retained_at(root, pos) + retained_at(cn, pos + 1) =~= retained_at(cn, pos + 1));
    } else if new.kind is Empty {
        let m = reconciler::plan_nodes(parent, old, new, onodes, lo);
        lemma_retained_at_single(m[0], pos);
        assert(m =~= seq![m[0]]);
        assert(updates(Seq::<NativeOp>::empty()) =~= Seq::<(usize, usize)>::empty());
    } else {
        let m = reconciler::plan_nodes(parent, old, new, onodes, lo);
        let o = reconciler::plan_ops(parent, old, new, onodes, lo, hi, pos);
        lemma_retained_at_single(m[0], pos);
        assert(m =~= seq![m[0]]);
        lemma_collect_single(o[0], f);
        assert(o =~= seq![o[0]]);
    }
}

pub proof fn lemma_plan_children_updates(
    parent: usize,
    olds: Seq<ViewNode>,
    news: Seq<ViewNode>,
    onodes: Seq<NodeInfo>,
    olo: int,
    cpos: int,
    k: int,
)
    requires
        0 <= k <= news.len(),
    ensures
        updates(reconciler::plan_children_ops(parent, olds, news, onodes, olo, cpos, k)) == retained_at(
            reconciler::plan_children_nodes(parent, olds, news, onodes, olo, k),
            cpos,
        ),
    decreases news, k,
{
    let f = |op: NativeOp| update_of(op);
    if k > 0 {
        lemma_plan_children_updates(parent, olds, news, onodes, olo, cpos, k - 1);
        let pn = reconciler::plan_children_nodes(parent, olds, news, onodes, olo, k - 1);
        let po = reconciler::plan_children_ops(parent, olds, news, onodes, olo, cpos, k - 1);
        let p = cpos + tree::offset(news, k - 1);
        let (o, l, h) = match reconciler::match_old(olds, news, k - 1) {
            Some(i) => (Some(olds[i]), olo + tree::offset(olds, i), olo + tree::offset(olds, i + 1)),
            None => (None, 0, 0),
        };
        let cn = reconciler::plan_nodes(parent, o, news[k - 1], onodes, l);
        let co = reconciler::plan_ops(parent, o, news[k - 1], onodes, l, h, p);
        assert(reconciler::plan_children_nodes(parent, olds, news, onodes, olo, k) == pn + cn);
        assert(reconciler::plan_children_ops(parent, olds, news, onodes, olo, cpos, k) == po + co);
        lemma_plan_updates(parent, o, news[k - 1], onodes, l, h, p);
        lemma_collect_add(po, co, f);
        lemma_retained_at_add(pn, cn, cpos);
        reconciler::lemma_plan_children_nodes_len(parent, olds, news, onodes, olo, k - 1);
    } else {
        assert(updates(Seq::<NativeOp>::empty()) =~= Seq::<(usize, usize)>::empty());
        assert(retained_at(Seq::<PlannedNode>::empty(), cpos) =~= Seq::<(usize, usize)>::empty());
    }
}


/// The first components, in order.
pub open spec fn firsts(s: Seq<(usize, usize)>) -> Seq<usize> {
    s.map_values(|x: (usize, usize)| x.0)
}

pub proof fn lemma_firsts_add(a: Seq<(usize, usize)>, b: Seq<(usize, usize)>)
    ensures
        firsts(a + b) == firsts(a) + firsts(b),
{
    assert(firsts(a + b) =~= firsts(a) + firsts(b));
}

pub proof fn lemma_updated_hwnds_of_updates(ops: Seq<NativeOp>)
    ensures
        updated_hwnds(ops) == firsts(updates(ops)),
    decreases ops.len(),
{
    if ops.len() > 0 {
        lemma_updated_hwnds_of_updates(ops.drop_last());
        let b = update_of(ops.last());
        lemma_firsts_add(updates(ops.drop_last()), b);
        assert(firsts(b) =~= updated_by(ops.last()));
    } else {
        assert(firsts(updates(ops)) =~= Seq::<usize>::empty());
    }
}

pub proof fn lemma_kept_hwnds_of_retained(ps: Seq<PlannedNode>, base: int)
    ensures
        kept_hwnds(ps) == firsts(retained_at(ps, base)),
    decreases ps.len(),
{
    if ps.len() > 0 {
        lemma_kept_hwnds_of_retained(ps.drop_last(), base);
        let b = match ps.last().slot {
            Slot::Retained(h) => seq![(h, (base + ps.len() - 1) as usize)],
            _ => Seq::<(usize, usize)>::empty(),
        };
        lemma_firsts_add(retained_at(ps.drop_last(), base), b);
        assert(firsts(b) =~= kept_by(ps.last()));
    } else {
        assert(firsts(retained_at(ps, base)) =~= Seq::<usize>::empty());
    }
}

// ---------------------------------------------------------------------------
// Destroyed and updated windows are the old owned windows
// ---------------------------------------------------------------------------

/// A destroy or update names the window retained at its old position.
pub open spec fn op_names_old_window(op: NativeOp, onodes: Seq<NodeInfo>) -> bool {
    match op {
        NativeOp::Destroy { hwnd, old_pos } => hwnd == onodes[old_pos as int].hwnd,
        NativeOp::Update { hwnd, old_pos, .. } => hwnd == onodes[old_pos as int].hwnd,
        NativeOp::Create { .. } => true,
    }
}

pub open spec fn ops_name_old_windows(ops: Seq<NativeOp>, onodes: Seq<NodeInfo>) -> bool {
    forall|i: int| 0 <= i < ops.len() ==> op_names_old_window(#[trigger] ops[i], onodes)
}

pub proof fn lemma_names_add(x: Seq<NativeOp>, y: Seq<NativeOp>, onodes: Seq<NodeInfo>)
    requires
        ops_name_old_windows(x, onodes),
        ops_name_old_windows(y, onodes),
    ensures
        ops_name_old_windows(x + y, onodes),
{
    assert forall|i: int| 0 <= i < (x + y).len() implies op_names_old_window(#[trigger] (x + y)[i], onodes) by {
        if i < x.len() {
            assert((x + y)[i] == x[i]);
        } else {
            assert((x + y)[i] == y[i - x.len()]);
        }
    }
}

pub proof fn lemma_destroy_names(nodes: Seq<NodeInfo>, lo: int, hi: int)
    requires
        0 <= lo,
        hi <= nodes.len() <= usize::MAX,
    ensures
        ops_name_old_windows(reconciler::destroy_ops(nodes, lo, hi), nodes),
    decreases hi - lo,
{
    if lo < hi {
        let op = NativeOp::Destroy { hwnd: nodes[hi - 1].hwnd, old_pos: (hi - 1) as usize };
        let head = if nodes[hi - 1].owns_hwnd {
            seq![op]
        } else {
            Seq::<NativeOp>::empty()
        };
        lemma_destroy_names(nodes, lo, hi - 1);
        assert(ops_name_old_windows(head, nodes)) by {
            if nodes[hi - 1].owns_hwnd {
                assert(head[0] == op);
            }
        }
        lemma_names_add(head, reconciler::destroy_ops(nodes, lo, hi - 1), nodes);
    }
}

pub proof fn lemma_unused_names(
    olds: Seq<ViewNode>,
    news: Seq<ViewNode>,
    onodes: Seq<NodeInfo>,
    olo: int,
    k: int,
)
    requires
        0 <= k <= olds.len(),
        reconciler::consistent_all(olds, onodes, olo, olds.len() as int),
        onodes.len() <= usize::MAX,
    ensures
        ops_name_old_windows(reconciler::unused_ops(olds, news, onodes, olo, k), onodes),
    decreases k,
{
    if k > 0 {
        lemma_unused_names(olds, news, onodes, olo, k - 1);
        let l = olo + tree::offset(olds, k - 1);
        let h = olo + tree::offset(olds, k);
        let tail = if reconciler::matched(olds, news, k - 1) {
            Seq::<NativeOp>::empty()
        } else {
            reconciler::destroy_ops(onodes, l, h)
        };
        reconciler::lemma_consistent_all_get(olds, onodes, olo, olds.len() as int, k - 1);
        tree::lemma_sizes_take_step(olds, k - 1);
        lemma_destroy_names(onodes, l, h);
        lemma_names_add(reconciler::unused_ops(olds, news, onodes, olo, k - 1), tail, onodes);
    }
}

pub proof fn lemma_mount_names(t: ViewNode, parent: usize, pos: int, onodes: Seq<NodeInfo>)
    ensures
        ops_name_old_windows(reconciler::mount_ops(t, parent, pos), onodes),
    decreases t, 1int,
{
    if tree::kind_is_container(t.kind) {
        lemma_mount_all_names(t.children@, parent, pos + 1, t.children@.len() as int, onodes);
    }
}

pub proof fn lemma_mount_all_names(s: Seq<ViewNode>, parent: usize, pos: int, k: int, onodes: Seq<NodeInfo>)
    ensures
        ops_name_old_windows(reconciler::mount_all_ops(s, parent, pos, k), onodes),
    decreases s, k,
{
    if 0 < k <= s.len() {
        lemma_mount_all_names(s, parent, pos, k - 1, onodes);
        lemma_mount_names(s[k - 1], parent, pos + tree::offset(s, k - 1), onodes);
        lemma_names_add(
            reconciler::mount_all_ops(s, parent, pos, k - 1),
            reconciler::mount_ops(s[k - 1], parent, pos + tree::offset(s, k - 1)),
            onodes,
        );
    }
}

pub proof fn lemma_plan_names(
    parent: usize,
    old: Option<ViewNode>,
    new: ViewNode,
    onodes: Seq<NodeInfo>,
    lo: int,
    hi: int,
    pos: int,
)
    requires
        0 <= lo <= hi <= onodes.len() <= usize::MAX,
        old matches Some(o) ==> reconciler::consistent(o, onodes, lo) && hi == lo + tree::size(o),
    ensures
        ops_name_old_windows(reconciler::plan_ops(parent, old, new, onodes, lo, hi, pos), onodes),
    decreases new, 1int,
{
    if !reconciler::can_update(old, new) {
        lemma_destroy_names(onodes, lo, hi);
        lemma_mount_names(new, parent, pos, onodes);
        lemma_names_add(reconciler::destroy_ops(onodes, lo, hi), reconciler::mount_ops(new, parent, pos), onodes);
    } else if tree::kind_is_container(new.kind) {
        let olds = old.unwrap().children@;
        let news = new.children@;
        let co = reconciler::plan_children_ops(parent, olds, news, onodes, lo + 1, pos + 1, news.len() as int);
        let uo = reconciler::unused_ops(olds, news, onodes, lo + 1, olds.len() as int);
        lemma_plan_children_names(parent, olds, news, onodes, lo + 1, pos + 1, news.len() as int);
        lemma_unused_names(olds, news, onodes, lo + 1, olds.len() as int);
        lemma_names_add(co, uo, onodes);
    } else if !(new.kind is Empty) {
        let o = reconciler::plan_ops(parent, old, new, onodes, lo, hi, pos);
        assert(o[0] == NativeOp::Update { hwnd: onodes[lo].hwnd, old_pos: lo as usize, new_pos: pos as usize });
    }
}

pub proof fn lemma_plan_children_names(
    parent: usize,
    olds: Seq<ViewNode>,
    news: Seq<ViewNode>,
    onodes: Seq<NodeInfo>,
    olo: int,
    cpos: int,
    k: int,
)
    requires
        0 <= k <= news.len(),
        reconciler::consistent_all(olds, onodes, olo, olds.len() as int),
        onodes.len() <= usize::MAX,
    ensures
        ops_name_old_windows(reconciler::plan_children_ops(parent, olds, news, onodes, olo, cpos, k), onodes),
    decreases news, k,
{
    if k > 0 {
        lemma_plan_children_names(parent, olds, news, onodes, olo, cpos, k - 1);
        let po = reconciler::plan_children_ops(parent, olds, news, onodes, olo, cpos, k - 1);
        let p = cpos + tree::offset(news, k - 1);
        reconciler::lemma_match_old_bound(olds, news, k - 1);
        match reconciler::match_old(olds, news, k - 1) {
            Some(i) => {
                let l = olo + tree::offset(olds, i);
                let h = olo + tree::offset(olds, i + 1);
                let co = reconciler::plan_ops(parent, Some(olds[i]), news[k - 1], onodes, l, h, p);
                assert(reconciler::plan_children_ops(parent, olds, news, onodes, olo, cpos, k) == po + co);
                reconciler::lemma_consistent_all_get(olds, onodes, olo, olds.len() as int, i);
                tree::lemma_sizes_take_step(olds, i);
                lemma_plan_names(parent, Some(olds[i]), news[k - 1], onodes, l, h, p);
                lemma_names_add(po, co, onodes);
            },
            None => {
                let co = reconciler::plan_ops(parent, None, news[k - 1], onodes, 0, 0, p);
                assert(reconciler::plan_children_ops(parent, olds, news, onodes, olo, cpos, k) == po + co);
                lemma_plan_names(parent, None, news[k - 1], onodes, 0, 0, p);
                lemma_names_add(po, co, onodes);
            },
        }
    }
}


/// The windows retained at the given old positions.
pub open spec fn hwnds_at(onodes: Seq<NodeInfo>, ps: Seq<usize>) -> Seq<usize> {
    ps.map_values(|p: usize| onodes[p as int].hwnd)
}

pub proof fn lemma_hwnds_at_add(onodes: Seq<NodeInfo>, a: Seq<usize>, b: Seq<usize>)
    ensures
        hwnds_at(onodes, a + b) == hwnds_at(onodes, a) + hwnds_at(onodes, b),
{
    assert(hwnds_at(onodes, a + b) =~= hwnds_at(onodes, a) + hwnds_at(onodes, b));
}

/// The window an operation destroys or updates, if any.
pub open spec fn touched_by(op: NativeOp) -> Seq<usize> {
    match op {
        NativeOp::Destroy { hwnd, .. } => seq![hwnd],
        NativeOp::Update { hwnd, .. } => seq![hwnd],
        NativeOp::Create { .. } => Seq::empty(),
    }
}

/// The windows the operations destroy or update, in order.
pub open spec fn touched_hwnds(ops: Seq<NativeOp>) -> Seq<usize> {
    collect(ops, |op: NativeOp| touched_by(op))
}

pub proof fn lemma_touched_split(ops: Seq<NativeOp>)
    ensures
        touched_hwnds(ops).to_multiset() == destroyed_hwnds(ops).to_multiset().add(
            updated_hwnds(ops).to_multiset(),
        ),
    decreases ops.len(),
{
    broadcast use vstd::seq_lib::lemma_multiset_commutative;
    broadcast use vstd::multiset::group_multiset_axioms;
    broadcast use vstd::seq_lib::group_to_multiset_ensures;

    if ops.len() > 0 {
        lemma_touched_split(ops.drop_last());
        let op = ops.last();
        assert(touched_hwnds(ops) == touched_hwnds(ops.drop_last()) + touched_by(op));
        assert(destroyed_hwnds(ops) == destroyed_hwnds(ops.drop_last()) + destroyed_by(op));
        assert(updated_hwnds(ops) == updated_hwnds(ops.drop_last()) + updated_by(op));
        assert(Seq::<usize>::empty().to_multiset() =~= Multiset::<usize>::empty());
        assert(touched_hwnds(ops).to_multiset() =~= destroyed_hwnds(ops).to_multiset().add(
            updated_hwnds(ops).to_multiset(),
        ));
    } else {
        assert(touched_hwnds(ops) =~= Seq::<usize>::empty());
        assert(destroyed_hwnds(ops) =~= Seq::<usize>::empty());
        assert(updated_hwnds(ops) =~= Seq::<usize>::empty());
        assert(Seq::<usize>::empty().to_multiset() =~= Multiset::<usize>::empty());
    }
}

pub proof fn lemma_touched_hwnds_at(ops: Seq<NativeOp>, onodes: Seq<NodeInfo>)
    requires
        ops_name_old_windows(ops, onodes),
    ensures
        touched_hwnds(ops) == hwnds_at(onodes, reconcile_laws::touched(ops)),
    decreases ops.len(),
{
    if ops.len() > 0 {
        let d = ops.drop_last();
        assert forall|i: int| 0 <= i < d.len() implies op_names_old_window(#[trigger] d[i], onodes) by {
            assert(d[i] == ops[i]);
        }
        lemma_touched_hwnds_at(d, onodes);
        let op = ops.last();
        assert(op_names_old_window(ops[ops.len() - 1], onodes));
        let t = reconcile_laws::touched(d);
        let tail = match op {
            NativeOp::Destroy { old_pos, .. } => seq![old_pos],
            NativeOp::Update { old_pos, .. } => seq![old_pos],
            NativeOp::Create { .. } => Seq::<usize>::empty(),
        };
        lemma_hwnds_at_add(onodes, t, tail);
        assert(hwnds_at(onodes, tail) =~= touched_by(op));
    } else {
        assert(touched_hwnds(ops) =~= Seq::<usize>::empty());
        assert(hwnds_at(onodes, reconcile_laws::touched(ops)) =~= Seq::<usize>::empty());
    }
}

/// The windows at two lists of the same positions are the same windows.
pub proof fn lemma_hwnds_at_multiset(onodes: Seq<NodeInfo>, a: Seq<usize>, b: Seq<usize>)
    requires
        a.to_multiset() == b.to_multiset(),
    ensures
        hwnds_at(onodes, a).to_multiset() == hwnds_at(onodes, b).to_multiset(),
    decreases a.len(),
{
    broadcast use vstd::multiset::group_multiset_axioms;
    broadcast use vstd::seq_lib::group_to_multiset_ensures;

    if a.len() == 0 {
        assert(a.to_multiset().len() == a.len());
        assert(b.to_multiset().len() == b.len());
        assert(b.len() == 0);
        assert(hwnds_at(onodes, a) =~= Seq::<usize>::empty());
        assert(hwnds_at(onodes, b) =~= Seq::<usize>::empty());
    } else {
        let x = a.last();
        let a2 = a.drop_last();
        assert(a == a2.push(x));
        assert(a.to_multiset() == a2.to_multiset().insert(x));
        assert(b.to_multiset().count(x) > 0);
        assert(b.contains(x));
        let j = choose|j: int| 0 <= j < b.len() && b[j] == x;
        let b2 = b.remove(j);
        assert(b2.to_multiset() == b.to_multiset().remove(x));
        assert(a2.to_multiset() =~= b2.to_multiset());
        lemma_hwnds_at_multiset(onodes, a2, b2);
        let h = onodes[x as int].hwnd;
        let ma = hwnds_at(onodes, a);
        let mb = hwnds_at(onodes, b);
        assert(ma =~= hwnds_at(onodes, a2).push(h));
        assert(mb.remove(j) =~= hwnds_at(onodes, b2));
        assert(mb[j] == h);
        assert(hwnds_at(onodes, b2).to_multiset() == mb.to_multiset().remove(h));
        assert(mb.contains(h));
        assert(mb.to_multiset().count(h) > 0);
        assert(ma.to_multiset() =~= mb.to_multiset());
    }
}

pub proof fn lemma_owned_hwnds_at(nodes: Seq<NodeInfo>, hi: int)
    requires
        0 <= hi <= nodes.len() <= usize::MAX,
    ensures
        owned_hwnds(nodes.take(hi)) == hwnds_at(nodes, reconcile_laws::owned_positions(nodes, 0, hi)),
    decreases hi,
{
    if hi > 0 {
        lemma_owned_hwnds_at(nodes, hi - 1);
        let t = nodes.take(hi);
        assert(t.drop_last() =~= nodes.take(hi - 1));
        assert(t.last() == nodes[hi - 1]);
        let a = reconcile_laws::owned_positions(nodes, 0, hi - 1);
        let tail = if nodes[hi - 1].owns_hwnd {
            seq![(hi - 1) as usize]
        } else {
            Seq::<usize>::empty()
        };
        lemma_hwnds_at_add(nodes, a, tail);
        assert(hwnds_at(nodes, tail) =~= owned_by(nodes[hi - 1]));
    } else {
        assert(owned_hwnds(nodes.take(0)) =~= Seq::<usize>::empty());
        assert(hwnds_at(nodes, reconcile_laws::owned_positions(nodes, 0, 0)) =~= Seq::<usize>::empty());
    }
}


// ---------------------------------------------------------------------------
// The committed tree owns the kept and the created windows
// ---------------------------------------------------------------------------

pub proof fn lemma_resolve_drop_last(ps: Seq<PlannedNode>, c: Seq<usize>)
    requires
        ps.len() > 0,
    ensures
        reconciler::resolve(ps, c).drop_last() == reconciler::resolve(ps.drop_last(), c),
        reconciler::resolve(ps, c).last() == reconciler::resolve_node(ps, c, ps.len() - 1),
{
    let r = reconciler::resolve(ps, c);
    let d = ps.drop_last();
    assert forall|i: int| 0 <= i < d.len() implies #[trigger] r.drop_last()[i] == reconciler::resolve(d, c)[i] by {
        assert(d.take(i) =~= ps.take(i));
        assert(d[i] == ps[i]);
    }
    assert(r.drop_last() =~= reconciler::resolve(d, c));
}

pub proof fn lemma_resolve_owned(ps: Seq<PlannedNode>, c: Seq<usize>)
    requires
        c.len() >= reconciler::fresh_count(ps),
    ensures
        owned_hwnds(reconciler::resolve(ps, c)).to_multiset() == kept_hwnds(ps).to_multiset().add(
            c.take(reconciler::fresh_count(ps) as int).to_multiset(),
        ),
    decreases ps.len(),
{
    broadcast use vstd::multiset::group_multiset_axioms;
    broadcast use vstd::seq_lib::group_to_multiset_ensures;
    broadcast use vstd::seq_lib::lemma_multiset_commutative;

    let r = reconciler::resolve(ps, c);
    if ps.len() > 0 {
        let d = ps.drop_last();
        let n = ps.len() - 1;
        let fd = reconciler::fresh_count(d) as int;
        lemma_resolve_drop_last(ps, c);
        lemma_resolve_owned(d, c);
        assert(ps.take(n) =~= d);
        assert(owned_hwnds(r) == owned_hwnds(r.drop_last()) + owned_by(r.last()));
        assert(kept_hwnds(ps) == kept_hwnds(d) + kept_by(ps.last()));
        assert(ps.last() == ps[n]);
        match ps[n].slot {
            Slot::Fresh => {
                assert(c.take(fd + 1) =~= c.take(fd).push(c[fd]));
                assert(owned_by(r.last()) =~= seq![c[fd]]);
                assert(kept_by(ps.last()) =~= Seq::<usize>::empty());
            },
            Slot::Retained(h) => {
                assert(owned_by(r.last()) =~= seq![h]);
                assert(kept_by(ps.last()) =~= seq![h]);
            },
            Slot::Virtual => {
                assert(owned_by(r.last()) =~= Seq::<usize>::empty());
                assert(kept_by(ps.last()) =~= Seq::<usize>::empty());
            },
        }
        assert(owned_hwnds(r).to_multiset() =~= kept_hwnds(ps).to_multiset().add(
            c.take(reconciler::fresh_count(ps) as int).to_multiset(),
        ));
    } else {
        assert(owned_hwnds(r) =~= Seq::<usize>::empty());
        assert(kept_hwnds(ps) =~= Seq::<usize>::empty());
        assert(c.take(0) =~= Seq::<usize>::empty());
        assert(Seq::<usize>::empty().to_multiset() =~= Multiset::<usize>::empty());
    }
}

// ---------------------------------------------------------------------------
// The law
// ---------------------------------------------------------------------------

/// The planned nodes of a reconciliation of `onodes` (describing `old`)
/// against `new` under `root`.
pub open spec fn plan_of(root: usize, old: Option<ViewNode>, new: ViewNode, onodes: Seq<NodeInfo>) -> Seq<
    PlannedNode,
> {
    reconciler::plan_nodes(root, reconciler::effective_old(old, onodes), new, onodes, 0)
}

/// The native operations of the same reconciliation.
pub open spec fn ops_of(root: usize, old: Option<ViewNode>, new: ViewNode, onodes: Seq<NodeInfo>) -> Seq<
    NativeOp,
> {
    reconciler::plan_ops(root, reconciler::effective_old(old, onodes), new, onodes, 0, onodes.len() as int, 0)
}

/// Window by window, a reconciliation accounts for every window:
/// - the windows kept are exactly the windows updated, each once, at the
///   preorder position of the node that keeps it;
/// - the windows destroyed and the windows updated are, together, exactly
///   the windows the old tree owns, each once;
/// - after the commit, the tree owns exactly the kept windows and the
///   created ones;
/// - when the old tree owns distinct windows, no window is both destroyed
///   and kept.
pub proof fn law_windows_accounted_for(
    root: usize,
    old: Option<ViewNode>,
    new: ViewNode,
    onodes: Seq<NodeInfo>,
    created: Seq<usize>,
)
    requires
        tree::keys_unique(new),
        onodes.len() > 0 && old is Some ==> reconciler::describes(old.unwrap(), onodes),
        onodes.len() <= usize::MAX,
        created.len() == reconciler::fresh_count(plan_of(root, old, new, onodes)),
    ensures
        updates(ops_of(root, old, new, onodes)) == retained_at(plan_of(root, old, new, onodes), 0),
        kept_hwnds(plan_of(root, old, new, onodes)) == updated_hwnds(ops_of(root, old, new, onodes)),
        destroyed_hwnds(ops_of(root, old, new, onodes)).to_multiset().add(
            updated_hwnds(ops_of(root, old, new, onodes)).to_multiset(),
        ) == owned_hwnds(onodes).to_multiset(),
        owned_hwnds(reconciler::resolve(plan_of(root, old, new, onodes), created)).to_multiset() == kept_hwnds(
            plan_of(root, old, new, onodes),
        ).to_multiset().add(created.to_multiset()),
        owned_hwnds(onodes).no_duplicates() ==> forall|h: usize|
            !(#[trigger] destroyed_hwnds(ops_of(root, old, new, onodes)).contains(h) && kept_hwnds(
                plan_of(root, old, new, onodes),
            ).contains(h)),
{
    broadcast use vstd::multiset::group_multiset_axioms;
    broadcast use vstd::seq_lib::group_to_multiset_ensures;

    let eo = reconciler::effective_old(old, onodes);
    let ps = plan_of(root, old, new, onodes);
    let ops = ops_of(root, old, new, onodes);
    let len = onodes.len() as int;
    lemma_plan_updates(root, eo, new, onodes, 0, len, 0);
    lemma_updated_hwnds_of_updates(ops);
    lemma_kept_hwnds_of_retained(ps, 0);
    lemma_plan_names(root, eo, new, onodes, 0, len, 0);
    reconcile_laws::law_old_windows_destroyed_or_kept_once(root, old, new, onodes);
    lemma_hwnds_at_multiset(
        onodes,
        reconcile_laws::touched(ops),
        reconcile_laws::owned_positions(onodes, 0, len),
    );
    lemma_touched_hwnds_at(ops, onodes);
    lemma_owned_hwnds_at(onodes, len);
    assert(onodes.take(len) =~= onodes);
    lemma_touched_split(ops);
    lemma_resolve_owned(ps, created);
    assert(created.take(created.len() as int) =~= created);
    if owned_hwnds(onodes).no_duplicates() {
        assert forall|h: usize|
            !(#[trigger] destroyed_hwnds(ops).contains(h) && kept_hwnds(ps).contains(h)) by {
            if destroyed_hwnds(ops).contains(h) && kept_hwnds(ps).contains(h) {
                let m = owned_hwnds(onodes).to_multiset();
                assert(destroyed_hwnds(ops).to_multiset().count(h) >= 1);
                assert(updated_hwnds(ops).to_multiset().count(h) >= 1);
                assert(m.count(h) >= 2);
                owned_hwnds(onodes).lemma_multiset_has_no_duplicates();
                assert(m.contains(h));
            }
        }
    }
}


pub proof fn lemma_kept_owned(nodes: Seq<NodeInfo>, parent: usize)
    ensures
        kept_hwnds(reconcile_laws::kept(nodes, parent, 0, nodes.len() as int)) == owned_hwnds(nodes),
    decreases nodes.len(),
{
    let k = reconcile_laws::kept(nodes, parent, 0, nodes.len() as int);
    if nodes.len() > 0 {
        let d = nodes.drop_last();
        lemma_kept_owned(d, parent);
        assert(k.drop_last() =~= reconcile_laws::kept(d, parent, 0, d.len() as int));
        assert(k.last() == reconcile_laws::keep_node(nodes.last(), parent));
        assert(kept_by(k.last()) =~= owned_by(nodes.last()));
        assert(kept_hwnds(k) == kept_hwnds(k.drop_last()) + kept_by(k.last()));
        assert(owned_hwnds(nodes) == owned_hwnds(d) + owned_by(nodes.last()));
    } else {
        assert(kept_hwnds(k) =~= Seq::<usize>::empty());
        assert(owned_hwnds(nodes) =~= Seq::<usize>::empty());
    }
}

/// The operation updates, from and to the same preorder position, the
/// window retained at that position.
pub open spec fn updates_own_window_in_place(op: NativeOp, onodes: Seq<NodeInfo>) -> bool {
    op matches NativeOp::Update { hwnd, old_pos, new_pos } && old_pos == new_pos && hwnd == onodes[old_pos as int].hwnd
}

/// Re-rendering an unchanged view updates every window the tree owns, each
/// once and in preorder, and nothing else; each update names the window
/// retained at its position, from and to that same position, so with the
/// same view node on both sides.
pub proof fn law_unchanged_view_updates_each_window_in_place(root: usize, t: ViewNode, onodes: Seq<NodeInfo>)
    requires
        tree::keys_unique(t),
        reconciler::describes(t, onodes),
        onodes.len() <= usize::MAX,
    ensures
        updated_hwnds(ops_of(root, Some(t), t, onodes)) == owned_hwnds(onodes),
        destroyed_hwnds(ops_of(root, Some(t), t, onodes)) == Seq::<usize>::empty(),
        forall|i: int|
            0 <= i < ops_of(root, Some(t), t, onodes).len() ==> updates_own_window_in_place(
                #[trigger] ops_of(root, Some(t), t, onodes)[i],
                onodes,
            ),
{
    broadcast use vstd::multiset::group_multiset_axioms;
    broadcast use vstd::seq_lib::group_to_multiset_ensures;

    let ops = ops_of(root, Some(t), t, onodes);
    let ps = plan_of(root, Some(t), t, onodes);
    let len = onodes.len() as int;
    reconcile_laws::law_unchanged_view_keeps_every_window(root, t, onodes);
    lemma_plan_names(root, Some(t), t, onodes, 0, len, 0);
    lemma_plan_updates(root, Some(t), t, onodes, 0, len, 0);
    lemma_updated_hwnds_of_updates(ops);
    lemma_kept_hwnds_of_retained(ps, 0);
    lemma_kept_owned(onodes, root);
    assert forall|i: int| 0 <= i < ops.len() implies updates_own_window_in_place(#[trigger] ops[i], onodes) by {
        assert(reconcile_laws::update_in_place(ops[i]));
        assert(op_names_old_window(ops[i], onodes));
    }
    lemma_no_destroys(ops);
}

pub proof fn lemma_no_destroys(ops: Seq<NativeOp>)
    requires
        forall|i: int| 0 <= i < ops.len() ==> (#[trigger] ops[i]) is Update,
    ensures
        destroyed_hwnds(ops) == Seq::<usize>::empty(),
    decreases ops.len(),
{
    if ops.len() > 0 {
        let d = ops.drop_last();
        assert forall|i: int| 0 <= i < d.len() implies (#[trigger] d[i]) is Update by {
            assert(d[i] == ops[i]);
        }
        lemma_no_destroys(d);
        assert(ops[ops.len() - 1] is Update);
        assert(destroyed_hwnds(ops) =~= destroyed_hwnds(d) + destroyed_by(ops.last()));
        assert(destroyed_by(ops.last()) =~= Seq::<usize>::empty());
        assert(destroyed_hwnds(ops) =~= Seq::<usize>::empty());
    } else {
        assert(destroyed_hwnds(ops) =~= Seq::<usize>::empty());
    }
}

} // verus!
