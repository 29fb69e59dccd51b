use elm_win32::reconciler::{takes_over, NativeOp, NodeTree};
use elm_win32::routing::{route_table, routing_in_preorder, ActionKind};
use elm_win32::tree::{validate_keys, ViewNode, WidgetKind};

/// Performs plans the way a native backend would, handing out window
/// numbers 1, 2, 3, ... (or reusing destroyed numbers first when asked).
#[derive(Default)]
struct FakeOps {
    next: usize,
    reuse: bool,
    free: Vec<usize>,
    destroyed: Vec<usize>,
    reorders: Vec<Vec<usize>>,
    ops: usize,
}

fn reconcile_with(
    tree: &mut NodeTree,
    root: usize,
    old: Option<&ViewNode>,
    new: &ViewNode,
    ops: &mut FakeOps,
) {
    if let Some(k) = validate_keys(new) {
        panic!("duplicate key among siblings: {k}");
    }
    if let Some(o) = old {
        if !tree.nodes.is_empty() {
            assert!(tree.describes_view(o), "old widget tree and retained node tree diverged");
        } else {
            assert!(
                !takes_over(o, new) || o.kind == WidgetKind::Empty,
                "old widget tree and retained node tree diverged"
            );
        }
    }
    let plan = tree.reconcile(root, old, new);
    let mut created = Vec::new();
    for op in &plan.ops {
        ops.ops += 1;
        match op {
            NativeOp::Create { .. } => {
                let h = if ops.reuse && !ops.free.is_empty() {
                    ops.free.remove(0)
                } else {
                    ops.next += 1;
                    ops.next
                };
                created.push(h);
            }
            NativeOp::Destroy { hwnd, .. } => {
                ops.destroyed.push(*hwnd);
                ops.free.push(*hwnd);
            }
            NativeOp::Update { .. } => {}
        }
    }
    for r in tree.commit(&plan, &created) {
        ops.reorders.push(r.hwnds.clone());
    }
}

fn label() -> ViewNode {
    ViewNode::leaf(WidgetKind::Label)
}

fn keyed_label(key: &str) -> ViewNode {
    label().keyed(key.to_string())
}

fn keyed_labels(keys: &[&str]) -> ViewNode {
    let mut column = ViewNode::column(Vec::new());
    for key in keys {
        column = column.push(keyed_label(key));
    }
    column
}

fn owned_handles(tree: &NodeTree) -> Vec<usize> {
    tree.nodes.iter().filter(|n| n.owns_hwnd).map(|n| n.hwnd).collect()
}

#[test]
fn virtual_nodes_never_destroy_the_root_window() {
    let root = 99usize;
    let old = ViewNode::column(vec![ViewNode::row(vec![label()])]);
    let new = ViewNode::leaf(WidgetKind::Empty);
    let mut tree = NodeTree::new();
    let mut ops = FakeOps::default();
    reconcile_with(&mut tree, root, None, &old, &mut ops);
    reconcile_with(&mut tree, root, Some(&old), &new, &mut ops);
    assert_eq!(ops.destroyed, vec![1]);
}

#[test]
fn keyed_reorder_reuses_handles_and_changes_native_order() {
    let root = 99usize;
    let old = keyed_labels(&["a", "b", "c"]);
    let new = keyed_labels(&["c", "a", "b"]);
    let mut tree = NodeTree::new();
    let mut ops = FakeOps::default();
    reconcile_with(&mut tree, root, None, &old, &mut ops);
    ops.reorders.clear();
    reconcile_with(&mut tree, root, Some(&old), &new, &mut ops);
    assert_eq!(owned_handles(&tree), vec![3, 1, 2]);
    assert!(ops.destroyed.is_empty());
    assert_eq!(ops.reorders, vec![vec![3, 1, 2]]);
}

#[test]
fn keyed_insert_and_delete_only_change_affected_handles() {
    let root = 99usize;
    let old = keyed_labels(&["a", "b"]);
    let new = keyed_labels(&["x", "a"]);
    let mut tree = NodeTree::new();
    let mut ops = FakeOps::default();
    reconcile_with(&mut tree, root, None, &old, &mut ops);
    reconcile_with(&mut tree, root, Some(&old), &new, &mut ops);
    assert_eq!(owned_handles(&tree), vec![3, 1]);
    assert_eq!(ops.destroyed, vec![2]);
}

#[test]
fn unkeyed_children_keep_absolute_index_identity() {
    let root = 99usize;
    let old = ViewNode::column(vec![label(), keyed_label("k")]);
    let new = ViewNode::column(vec![keyed_label("n"), label(), keyed_label("k")]);
    let mut tree = NodeTree::new();
    let mut ops = FakeOps::default();
    reconcile_with(&mut tree, root, None, &old, &mut ops);
    reconcile_with(&mut tree, root, Some(&old), &new, &mut ops);
    assert_eq!(owned_handles(&tree), vec![3, 4, 2]);
    assert_eq!(ops.destroyed, vec![1]);
}

#[test]
fn same_key_with_different_widget_type_remounts() {
    let root = 99usize;
    let old = ViewNode::column(vec![keyed_label("item")]);
    let new = ViewNode::column(vec![ViewNode::row(Vec::new()).keyed("item".to_string())]);
    let mut tree = NodeTree::new();
    let mut ops = FakeOps::default();
    reconcile_with(&mut tree, root, None, &old, &mut ops);
    reconcile_with(&mut tree, root, Some(&old), &new, &mut ops);
    assert_eq!(ops.destroyed, vec![1]);
    assert!(tree.nodes.iter().all(|node| !node.owns_hwnd));
}

#[test]
fn duplicate_keys_are_reported_before_any_native_change() {
    let duplicate = ViewNode::column(vec![keyed_label("duplicate"), keyed_label("duplicate")]);
    assert_eq!(validate_keys(&duplicate).map(|k| k.as_str()), Some("duplicate"));
    let nested = ViewNode::column(vec![
        keyed_label("a"),
        ViewNode::row(vec![keyed_label("x"), keyed_label("y"), keyed_label("x")]),
    ]);
    assert_eq!(validate_keys(&nested).map(|k| k.as_str()), Some("x"));
    // the same key under two different parents is fine
    let scoped = ViewNode::column(vec![
        ViewNode::row(vec![keyed_label("x")]).keyed("r1".to_string()),
        ViewNode::row(vec![keyed_label("x")]).keyed("r2".to_string()),
    ]);
    assert!(validate_keys(&scoped).is_none());
}

#[test]
fn first_render_of_the_empty_view_installs_a_virtual_node() {
    let root = 7usize;
    let empty = ViewNode::leaf(WidgetKind::Empty);
    let mut tree = NodeTree::new();
    let mut ops = FakeOps::default();
    reconcile_with(&mut tree, root, Some(&ViewNode::leaf(WidgetKind::Empty)), &empty, &mut ops);
    assert_eq!(tree.nodes.len(), 1);
    assert!(!tree.nodes[0].owns_hwnd);
    assert_eq!(tree.nodes[0].hwnd, root);
    assert_eq!(ops.ops, 0);
    assert!(ops.reorders.is_empty());
}

#[test]
fn remount_reusing_a_window_number_still_reorders() {
    let root = 5usize;
    let old = ViewNode::column(vec![keyed_label("item"), keyed_label("tail")]);
    let new = ViewNode::column(vec![
        ViewNode::leaf(WidgetKind::Button).keyed("item".to_string()),
        keyed_label("tail"),
    ]);
    let mut tree = NodeTree::new();
    let mut ops = FakeOps { reuse: true, ..FakeOps::default() };
    reconcile_with(&mut tree, root, None, &old, &mut ops);
    ops.reorders.clear();
    reconcile_with(&mut tree, root, Some(&old), &new, &mut ops);
    assert_eq!(ops.destroyed, vec![1]);
    assert_eq!(owned_handles(&tree), vec![1, 2]);
    assert_eq!(ops.reorders, vec![vec![1, 2]]);
}

#[test]
fn unchanged_view_only_updates_in_place() {
    let root = 1usize;
    let view = || {
        ViewNode::column(vec![
            keyed_label("a"),
            ViewNode::row(vec![label(), ViewNode::leaf(WidgetKind::Button)]),
            ViewNode::leaf(WidgetKind::Empty),
        ])
    };
    let old = view();
    let new = view();
    let mut tree = NodeTree::new();
    let mut ops = FakeOps::default();
    reconcile_with(&mut tree, root, None, &old, &mut ops);
    let before = tree.nodes.clone();
    ops.reorders.clear();
    let plan = tree.reconcile(root, Some(&old), &new);
    assert!(plan.ops.iter().all(|op| matches!(op, NativeOp::Update { .. })));
    assert_eq!(plan.ops.len(), 3);
    reconcile_with(&mut tree, root, Some(&old), &new, &mut ops);
    assert_eq!(tree.nodes, before);
    assert!(ops.reorders.is_empty());
    assert!(ops.destroyed.is_empty());
}

#[test]
fn retained_tree_records_subtree_lengths_in_preorder() {
    let root = 3usize;
    let view = ViewNode::column(vec![
        label(),
        ViewNode::row(vec![label(), label()]),
        ViewNode::leaf(WidgetKind::Empty),
    ]);
    let mut tree = NodeTree::new();
    let mut ops = FakeOps::default();
    reconcile_with(&mut tree, root, None, &view, &mut ops);
    let lens: Vec<usize> = tree.nodes.iter().map(|n| n.subtree_len).collect();
    assert_eq!(lens, vec![6, 1, 3, 1, 1, 1]);
    assert!(tree.describes_view(&view));
    assert!(!tree.describes_view(&label()));
    assert_eq!(tree.get_by_position(2).map(|n| n.owns_hwnd), Some(false));
    assert!(tree.get_by_position(6).is_none());
}

#[test]
fn plan_names_old_positions_of_destroyed_windows() {
    let root = 9usize;
    let old = ViewNode::column(vec![keyed_label("a"), ViewNode::row(vec![label(), label()]).keyed("r".to_string())]);
    let new = ViewNode::column(vec![keyed_label("a")]);
    let mut tree = NodeTree::new();
    let mut ops = FakeOps::default();
    reconcile_with(&mut tree, root, None, &old, &mut ops);
    let plan = tree.reconcile(root, Some(&old), &new);
    assert_eq!(
        plan.ops,
        vec![
            NativeOp::Update { hwnd: 1, old_pos: 1, new_pos: 1 },
            NativeOp::Destroy { hwnd: 3, old_pos: 4 },
            NativeOp::Destroy { hwnd: 2, old_pos: 3 },
        ]
    );
}

#[test]
fn validate_keys_reports_the_first_duplicate_in_preorder() {
    let inner = ViewNode::column(vec![keyed_label("a"), keyed_label("a")]);
    let view = ViewNode::column(vec![keyed_label("b"), inner, keyed_label("b")]);
    assert_eq!(validate_keys(&view).map(|k| k.as_str()), Some("a"));

    let inner = ViewNode::column(vec![keyed_label("a"), keyed_label("a")]);
    let view = ViewNode::column(vec![keyed_label("b"), keyed_label("b"), inner]);
    assert_eq!(validate_keys(&view).map(|k| k.as_str()), Some("b"));

    let cousins = ViewNode::column(vec![
        ViewNode::row(vec![keyed_label("a")]),
        ViewNode::row(vec![keyed_label("a")]),
    ]);
    assert_eq!(validate_keys(&cousins), None);
}

#[test]
#[should_panic(expected = "duplicate key among siblings: duplicate")]
fn duplicate_keys_panic_before_native_changes() {
    let root = 99usize;
    let duplicate = ViewNode::column(vec![keyed_label("duplicate"), keyed_label("duplicate")]);
    let mut tree = NodeTree::new();
    let mut ops = FakeOps::default();
    reconcile_with(&mut tree, root, None, &duplicate, &mut ops);
}

#[test]
fn every_window_is_kept_and_updated_destroyed_or_created() {
    let root = 99usize;
    let old = keyed_labels(&["a", "b", "c"]);
    let new = ViewNode::column(vec![
        keyed_label("c"),
        keyed_label("x"),
        ViewNode::leaf(WidgetKind::Button).keyed("a".to_string()),
    ]);
    let mut tree = NodeTree::new();
    let mut ops = FakeOps::default();
    reconcile_with(&mut tree, root, None, &old, &mut ops);
    let before = owned_handles(&tree);
    assert_eq!(before, vec![1, 2, 3]);
    let plan = tree.reconcile(root, Some(&old), &new);
    let mut destroyed = Vec::new();
    let mut updated = Vec::new();
    for op in &plan.ops {
        match *op {
            NativeOp::Destroy { hwnd, old_pos } => {
                assert_eq!(tree.nodes[old_pos].hwnd, hwnd);
                destroyed.push(hwnd);
            }
            NativeOp::Update { hwnd, old_pos, new_pos } => {
                assert_eq!(tree.nodes[old_pos].hwnd, hwnd);
                assert_eq!(new_pos, 1);
                updated.push(hwnd);
            }
            NativeOp::Create { .. } => {}
        }
    }
    // "c" is kept and updated; "b" and the label "a" are destroyed
    assert_eq!(updated, vec![3]);
    destroyed.sort();
    assert_eq!(destroyed, vec![1, 2]);
    let created = vec![10, 11];
    tree.commit(&plan, &created);
    let mut after = owned_handles(&tree);
    assert_eq!(after, vec![3, 10, 11]);
    after.sort();
    assert_eq!(after, vec![3, 10, 11]);
}

#[test]
fn unchanged_view_updates_each_window_at_its_own_position() {
    let root = 5usize;
    let view = || ViewNode::column(vec![label(), ViewNode::row(vec![keyed_label("k"), label()])]);
    let mut tree = NodeTree::new();
    let mut ops = FakeOps::default();
    reconcile_with(&mut tree, root, None, &view(), &mut ops);
    let plan = tree.reconcile(root, Some(&view()), &view());
    let mut seen = Vec::new();
    for op in &plan.ops {
        match *op {
            NativeOp::Update { hwnd, old_pos, new_pos } => {
                assert_eq!(old_pos, new_pos);
                assert_eq!(tree.nodes[old_pos].hwnd, hwnd);
                seen.push(hwnd);
            }
            _ => panic!("only updates expected"),
        }
    }
    assert_eq!(seen, owned_handles(&tree));
}

#[test]
fn an_empty_retained_tree_is_taken_over_only_from_the_empty_view() {
    let column = || ViewNode::column(vec![label()]);
    assert!(takes_over(&column(), &column()));
    assert!(!takes_over(&column(), &ViewNode::row(vec![label()])));
    assert!(!takes_over(&keyed_label("a"), &keyed_label("b")));
    assert!(takes_over(&ViewNode::leaf(WidgetKind::Empty), &ViewNode::leaf(WidgetKind::Empty)));
    // an old view of another kind is simply replaced on a first render
    let root = 4usize;
    let mut tree = NodeTree::new();
    let mut ops = FakeOps::default();
    reconcile_with(&mut tree, root, Some(&column()), &ViewNode::row(vec![label()]), &mut ops);
    assert_eq!(owned_handles(&tree), vec![1]);
    assert!(ops.destroyed.is_empty());
}

#[test]
fn route_table_maps_owned_windows_to_their_routing() {
    let root = 50usize;
    let mut button = ViewNode::leaf(WidgetKind::Button);
    button.handlers.on_click = true;
    let view = ViewNode::column(vec![label(), ViewNode::row(vec![button]).keyed("r".to_string())]);
    let mut tree = NodeTree::new();
    let mut ops = FakeOps::default();
    reconcile_with(&mut tree, root, None, &view, &mut ops);
    let table = route_table(&tree.nodes, &routing_in_preorder(&view));
    assert_eq!(table.len(), 1);
    assert_eq!(table[0].pos, 3);
    assert_eq!(table[0].hwnd, 2);
    assert_eq!(table[0].routing.action, Some(ActionKind::Click));
    assert!(tree.nodes[3].owns_hwnd);
}
