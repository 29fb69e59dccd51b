//! Routing of native notifications to application messages: which action
//! each window stands for, and what a notification asks the runtime to read
//! and emit.
use vstd::prelude::*;
use crate::tree;
use crate::tree::{EditColors, Handlers, ViewNode, WidgetKind};
use crate::reconciler;
use crate::reconciler::NodeInfo;
use crate::style::{checkbox_style_bits, CheckBoxStyle};

verus! {

/// What a control window does when the user acts on it.
#[derive(Debug, Clone, Copy, PartialEq, Eq, Structural)]
pub enum ActionKind {
    Click,
    Change,
    SelectListBox,
    SelectComboBox,
    EditComboBox,
    SelectComboBoxEx,
    DateTimeChange,
    HeaderColumnClick,
    TabChange,
    ToolbarButtonClick,
    TrackbarMove,
    Toggle { auto: bool, three_state: bool },
}

/// The action of a node of the given kind, handlers and check-box style
/// bits. A combo box with both handlers is routed to its edit handler.
pub open spec fn spec_action(kind: WidgetKind, h: Handlers, checkbox_style: u32) -> Option<ActionKind> {
    match kind {
        WidgetKind::Button => if h.on_click {
            Some(ActionKind::Click)
        } else {
            None
        },
        WidgetKind::TextEdit => if h.on_change {
            Some(ActionKind::Change)
        } else {
            None
        },
        WidgetKind::ListBox => if h.on_select {
            Some(ActionKind::SelectListBox)
        } else {
            None
        },
        WidgetKind::ComboBox => if h.on_edit_change {
            Some(ActionKind::EditComboBox)
        } else if h.on_select {
            Some(ActionKind::SelectComboBox)
        } else {
            None
        },
        WidgetKind::ComboBoxEx => if h.on_select {
            Some(ActionKind::SelectComboBoxEx)
        } else {
            None
        },
        WidgetKind::DateTime => if h.on_change {
            Some(ActionKind::DateTimeChange)
        } else {
            None
        },
        WidgetKind::Header => if h.on_column_click {
            Some(ActionKind::HeaderColumnClick)
        } else {
            None
        },
        WidgetKind::TabControl => if h.on_tab_change {
            Some(ActionKind::TabChange)
        } else {
            None
        },
        WidgetKind::Toolbar => if h.on_button_click {
            Some(ActionKind::ToolbarButtonClick)
        } else {
            None
        },
        WidgetKind::Trackbar => if h.on_change {
            Some(ActionKind::TrackbarMove)
        } else {
            None
        },
        WidgetKind::CheckBox => if h.on_toggle {
            Some(
                ActionKind::Toggle {
                    auto: checkbox_style == 0x0003 || checkbox_style == 0x0006,
                    three_state: checkbox_style == 0x0005 || checkbox_style == 0x0006,
                },
            )
        } else {
            None
        },
        WidgetKind::RadioButton => if h.on_toggle {
            Some(ActionKind::Toggle { auto: true, three_state: false })
        } else {
            None
        },
        _ => None,
    }
}

/// The edit colours (text, background) of a text edit that sets both.
pub open spec fn spec_colors(t: ViewNode) -> Option<EditColors> {
    if t.kind is TextEdit {
        t.colors
    } else {
        None
    }
}

/// How one view node routes notifications.
#[derive(Debug, Clone, Copy, PartialEq, Eq, Structural)]
pub struct Routing {
    pub action: Option<ActionKind>,
    pub colors: Option<EditColors>,
}

pub open spec fn spec_routing(t: ViewNode) -> Routing {
    Routing { action: spec_action(t.kind, t.handlers, t.checkbox_style), colors: spec_colors(t) }
}

/// The routing of every node of the tree, in preorder.
pub open spec fn preorder_routing(t: ViewNode) -> Seq<Routing>
    decreases t, 1int,
{
    if tree::kind_is_container(t.kind) {
        seq![spec_routing(t)] + all_routing(t.children@, t.children@.len() as int)
    } else {
        seq![spec_routing(t)]
    }
}

/// The routing of the first `k` sibling trees, in preorder.
pub open spec fn all_routing(s: Seq<ViewNode>, k: int) -> Seq<Routing>
    decreases s, k,
{
    if k <= 0 || k > s.len() {
        Seq::empty()
    } else {
        all_routing(s, k - 1) + preorder_routing(s[k - 1])
    }
}

/// The action of a node (see `spec_action`).
pub fn action_for(t: &ViewNode) -> (r: Option<ActionKind>)
    ensures
        r == spec_action(t.kind, t.handlers, t.checkbox_style),
{
    let h = t.handlers;
    match t.kind {
        WidgetKind::Button => if h.on_click {
            Some(ActionKind::Click)
        } else {
            None
        },
        WidgetKind::TextEdit => if h.on_change {
            Some(ActionKind::Change)
        } else {
            None
        },
        WidgetKind::ListBox => if h.on_select {
            Some(ActionKind::SelectListBox)
        } else {
            None
        },
        WidgetKind::ComboBox => if h.on_edit_change {
            Some(ActionKind::EditComboBox)
        } else if h.on_select {
            Some(ActionKind::SelectComboBox)
        } else {
            None
        },
        WidgetKind::ComboBoxEx => if h.on_select {
            Some(ActionKind::SelectComboBoxEx)
        } else {
            None
        },
        WidgetKind::DateTime => if h.on_change {
            Some(ActionKind::DateTimeChange)
        } else {
            None
        },
        WidgetKind::Header => if h.on_column_click {
            Some(ActionKind::HeaderColumnClick)
        } else {
            None
        },
        WidgetKind::TabControl => if h.on_tab_change {
            Some(ActionKind::TabChange)
        } else {
            None
        },
        WidgetKind::Toolbar => if h.on_button_click {
            Some(ActionKind::ToolbarButtonClick)
        } else {
            None
        },
        WidgetKind::Trackbar => if h.on_change {
            Some(ActionKind::TrackbarMove)
        } else {
            None
        },
        WidgetKind::CheckBox => if h.on_toggle {
            let s = t.checkbox_style;
            Some(ActionKind::Toggle { auto: s == 0x0003 || s == 0x0006, three_state: s == 0x0005 || s == 0x0006 })
        } else {
            None
        },
        WidgetKind::RadioButton => if h.on_toggle {
            Some(ActionKind::Toggle { auto: true, three_state: false })
        } else {
            None
        },
        _ => None,
    }
}

fn push_routing(t: &ViewNode, out: &mut Vec<Routing>)
    ensures
        final(out)@ == old(out)@ + preorder_routing(*t),
    decreases *t,
{
    let colors = if t.kind == WidgetKind::TextEdit {
        t.colors
    } else {
        None
    };
    out.push(Routing { action: action_for(t), colors });
    if t.kind.is_container() {
        let ghost base = out@;
        let n = t.children.len();
        let mut j: usize = 0;
        proof {
            assert(all_routing(t.children@, 0) =~= Seq::<Routing>::empty());
        }
        while j < n
            invariant
                n == t.children@.len(),
                0 <= j <= n,
                out@ == base + all_routing(t.children@, j as int),
            decreases n - j,
        {
            push_routing(&t.children[j], out);
            j = j + 1;
            proof {
                assert(out@ =~= base + all_routing(t.children@, j as int));
            }
        }
        proof {
            assert(out@ =~= old(out)@ + preorder_routing(*t));
        }
    }
}

/// How each node of the view routes notifications, in preorder: entry `p`
/// belongs to the window of the retained node at position `p`.
pub fn routing_in_preorder(t: &ViewNode) -> (r: Vec<Routing>)
    ensures
        r@ == preorder_routing(*t),
{
    let mut out: Vec<Routing> = Vec::new();
    push_routing(t, &mut out);
    proof {
        assert(out@ =~= preorder_routing(*t));
    }
    out
}

pub proof fn lemma_routing_len(t: ViewNode)
    ensures
        preorder_routing(t).len() == tree::size(t),
    decreases t, 1int,
{
    if tree::kind_is_container(t.kind) {
        lemma_all_routing_len(t.children@, t.children@.len() as int);
        tree::lemma_sizes_take_all(t.children@);
    }
}

pub proof fn lemma_all_routing_len(s: Seq<ViewNode>, k: int)
    requires
        0 <= k <= s.len(),
    ensures
        all_routing(s, k).len() == tree::offset(s, k),
    decreases s, k,
{
    if k > 0 {
        lemma_all_routing_len(s, k - 1);
        lemma_routing_len(s[k - 1]);
        tree::lemma_sizes_take_step(s, k - 1);
    } else {
        assert(s.take(0) =~= Seq::<ViewNode>::empty());
    }
}

/// The routing table has one entry per view node, so it lines up with the
/// retained nodes of a committed view, position by position.
pub proof fn law_routing_one_entry_per_node(t: ViewNode)
    ensures
        preorder_routing(t).len() == tree::size(t),
{
    lemma_routing_len(t);
}

// ---------------------------------------------------------------------------
// What a notification asks for
// ---------------------------------------------------------------------------

/// What the runtime does on a `WM_COMMAND` from a routed window.
#[derive(Debug, Clone, Copy, PartialEq, Eq, Structural)]
pub enum CommandEffect {
    Ignore,
    /// Emit the button's message.
    EmitClick,
    /// Read the edit's text and emit it.
    ReadEditText,
    ReadListBoxSelection,
    ReadComboBoxSelection,
    ReadComboBoxEditText,
    ReadComboBoxExSelection,
    /// Emit the toolbar handler for this button index.
    ToolbarButton(u32),
    /// Read the check state and emit the state the click leads to.
    ReadToggle { auto: bool, three_state: bool },
}

/// `EN_CHANGE`
pub const EN_CHANGE: u32 = 0x0300;
/// `LBN_SELCHANGE` / `CBN_SELCHANGE`
pub const SEL_CHANGE: u32 = 1;
/// `CBN_EDITCHANGE`
pub const CBN_EDITCHANGE: u32 = 5;
/// `BN_CLICKED`
pub const BN_CLICKED: u32 = 0;

pub open spec fn spec_command_effect(a: ActionKind, code: u32, ctrl_id: u32) -> CommandEffect {
    match a {
        ActionKind::Click => CommandEffect::EmitClick,
        ActionKind::Change => if code == EN_CHANGE {
            CommandEffect::ReadEditText
        } else {
            CommandEffect::Ignore
        },
        ActionKind::SelectListBox => if code == SEL_CHANGE {
            CommandEffect::ReadListBoxSelection
        } else {
            CommandEffect::Ignore
        },
        ActionKind::SelectComboBox => if code == SEL_CHANGE {
            CommandEffect::ReadComboBoxSelection
        } else {
            CommandEffect::Ignore
        },
        ActionKind::EditComboBox => if code == CBN_EDITCHANGE {
            CommandEffect::ReadComboBoxEditText
        } else {
            CommandEffect::Ignore
        },
        ActionKind::SelectComboBoxEx => if code == SEL_CHANGE {
            CommandEffect::ReadComboBoxExSelection
        } else {
            CommandEffect::Ignore
        },
        ActionKind::ToolbarButtonClick => CommandEffect::ToolbarButton(ctrl_id),
        ActionKind::Toggle { auto, three_state } => if code == BN_CLICKED {
            CommandEffect::ReadToggle { auto, three_state }
        } else {
            CommandEffect::Ignore
        },
        _ => CommandEffect::Ignore,
    }
}

/// What a `WM_COMMAND` with notification `code` and control id `ctrl_id`
/// asks for, from a window routed to action `a`. Track bars, date-time
/// pickers, headers and tab controls report through other messages.
pub fn command_effect(a: ActionKind, code: u32, ctrl_id: u32) -> (r: CommandEffect)
    ensures
        r == spec_command_effect(a, code, ctrl_id),
{
    match a {
        ActionKind::Click => CommandEffect::EmitClick,
        ActionKind::Change => if code == EN_CHANGE {
            CommandEffect::ReadEditText
        } else {
            CommandEffect::Ignore
        },
        ActionKind::SelectListBox => if code == SEL_CHANGE {
            CommandEffect::ReadListBoxSelection
        } else {
            CommandEffect::Ignore
        },
        ActionKind::SelectComboBox => if code == SEL_CHANGE {
            CommandEffect::ReadComboBoxSelection
        } else {
            CommandEffect::Ignore
        },
        ActionKind::EditComboBox => if code == CBN_EDITCHANGE {
            CommandEffect::ReadComboBoxEditText
        } else {
            CommandEffect::Ignore
        },
        ActionKind::SelectComboBoxEx => if code == SEL_CHANGE {
            CommandEffect::ReadComboBoxExSelection
        } else {
            CommandEffect::Ignore
        },
        ActionKind::ToolbarButtonClick => CommandEffect::ToolbarButton(ctrl_id),
        ActionKind::Toggle { auto, three_state } => if code == BN_CLICKED {
            CommandEffect::ReadToggle { auto, three_state }
        } else {
            CommandEffect::Ignore
        },
        _ => CommandEffect::Ignore,
    }
}

/// The check state a click leads to, given the state read back from the
/// control: an automatic box has already switched itself; a manual
/// three-state box cycles 0, 1, 2; a manual two-state box flips 0 and 1.
pub fn toggle_next_state(state: i32, auto: bool, three_state: bool) -> (r: i32)
    requires
        0 <= state <= 2,
    ensures
        auto ==> r == state,
        !auto && three_state ==> r == (state + 1) % 3,
        !auto && !three_state ==> r == 1 - state,
{
    if auto {
        state
    } else if three_state {
        (state + 1) % 3
    } else {
        1 - state
    }
}

/// The notification codes the runtime listens to in `WM_NOTIFY`.
#[derive(Debug, Clone, Copy, PartialEq, Eq, Structural)]
pub enum NotifyCode {
    DateTimeChange,
    HeaderItemClick,
    TabSelChange,
    Other,
}

/// What the runtime does on a `WM_NOTIFY`.
#[derive(Debug, Clone, Copy, PartialEq, Eq, Structural)]
pub enum NotifyEffect {
    Ignore,
    /// Read the picker's date and time and emit them.
    ReadDateTime,
    /// Emit the handler for the clicked header item.
    HeaderItem,
    /// Read the selected tab and emit it.
    ReadTabSelection,
}

/// What a `WM_NOTIFY` with the given code asks for, from a window routed to
/// action `a`.
pub fn notify_effect(a: ActionKind, code: NotifyCode) -> (r: NotifyEffect)
    ensures
        r == match (a, code) {
            (ActionKind::DateTimeChange, NotifyCode::DateTimeChange) => NotifyEffect::ReadDateTime,
            (ActionKind::HeaderColumnClick, NotifyCode::HeaderItemClick) => NotifyEffect::HeaderItem,
            (ActionKind::TabChange, NotifyCode::TabSelChange) => NotifyEffect::ReadTabSelection,
            _ => NotifyEffect::Ignore,
        },
{
    match (a, code) {
        (ActionKind::DateTimeChange, NotifyCode::DateTimeChange) => NotifyEffect::ReadDateTime,
        (ActionKind::HeaderColumnClick, NotifyCode::HeaderItemClick) => NotifyEffect::HeaderItem,
        (ActionKind::TabChange, NotifyCode::TabSelChange) => NotifyEffect::ReadTabSelection,
        _ => NotifyEffect::Ignore,
    }
}

/// Whether a scroll message from a window routed to `a` reports a track bar
/// move (read its position and emit it).
pub fn scroll_reads_position(a: ActionKind) -> (r: bool)
    ensures
        r == (a is TrackbarMove),
{
    matches!(a, ActionKind::TrackbarMove)
}


// ---------------------------------------------------------------------------
// Keys do not route
// ---------------------------------------------------------------------------

/// `a` and `b` are the same tree but for their keys: same kinds, handlers,
/// check-box styles and edit colours, node by node.
pub open spec fn same_but_keys(a: ViewNode, b: ViewNode) -> bool
    decreases a, 1int,
{
    &&& a.kind == b.kind
    &&& a.handlers == b.handlers
    &&& a.checkbox_style == b.checkbox_style
    &&& a.colors == b.colors
    &&& tree::kind_is_container(a.kind) ==> a.children@.len() == b.children@.len()
        && all_same_but_keys(a.children@, b.children@, a.children@.len() as int)
}

/// The first `k` trees of `s` and `t` are the same but for their keys.
pub open spec fn all_same_but_keys(s: Seq<ViewNode>, t: Seq<ViewNode>, k: int) -> bool
    decreases s, k,
{
    if k <= 0 || k > s.len() {
        true
    } else {
        all_same_but_keys(s, t, k - 1) && same_but_keys(s[k - 1], t[k - 1])
    }
}

pub proof fn lemma_all_routing_same(s: Seq<ViewNode>, t: Seq<ViewNode>, k: int)
    requires
        0 <= k <= s.len(),
        s.len() == t.len(),
        all_same_but_keys(s, t, k),
    ensures
        all_routing(s, k) == all_routing(t, k),
    decreases s, k,
{
    if k > 0 {
        lemma_all_routing_same(s, t, k - 1);
        lemma_routing_same(s[k - 1], t[k - 1]);
    }
}

pub proof fn lemma_routing_same(a: ViewNode, b: ViewNode)
    requires
        same_but_keys(a, b),
    ensures
        preorder_routing(a) == preorder_routing(b),
        tree::size(a) == tree::size(b),
    decreases a, 1int,
{
    if tree::kind_is_container(a.kind) {
        let n = a.children@.len() as int;
        lemma_all_routing_same(a.children@, b.children@, n);
        lemma_all_routing_len(a.children@, n);
        lemma_all_routing_len(b.children@, n);
        tree::lemma_sizes_take_all(a.children@);
        tree::lemma_sizes_take_all(b.children@);
    }
}

/// Keys do not take part in routing: two trees that differ only in their
/// keys route every preorder position alike, so the handler map built
/// from a keyed view is the one built from the same view without keys.
pub proof fn law_routing_ignores_keys(a: ViewNode, b: ViewNode)
    requires
        same_but_keys(a, b),
    ensures
        preorder_routing(a) == preorder_routing(b),
        tree::size(a) == tree::size(b),
{
    lemma_routing_same(a, b);
}


// ---------------------------------------------------------------------------
// The window-to-handler table
// ---------------------------------------------------------------------------

/// A node routes something: an action or edit colours.
pub open spec fn routes_something(r: Routing) -> bool {
    r.action is Some || r.colors is Some
}

/// One entry of the table that maps windows to what they route: the
/// preorder position of the node, its window and its routing.
#[derive(Debug, Clone, Copy, PartialEq, Eq, Structural)]
pub struct RouteEntry {
    pub pos: usize,
    pub hwnd: usize,
    pub routing: Routing,
}

/// The entries for the first `k` positions, in preorder: one for each
/// position whose routing routes something.
pub open spec fn route_entries(nodes: Seq<NodeInfo>, routes: Seq<Routing>, k: int) -> Seq<RouteEntry>
    decreases k,
{
    if k <= 0 {
        Seq::empty()
    } else {
        route_entries(nodes, routes, k - 1) + if routes_something(routes[k - 1]) {
            seq![RouteEntry { pos: (k - 1) as usize, hwnd: nodes[k - 1].hwnd, routing: routes[k - 1] }]
        } else {
            Seq::<RouteEntry>::empty()
        }
    }
}

pub open spec fn min_len(a: nat, b: nat) -> int {
    if a < b {
        a as int
    } else {
        b as int
    }
}

/// The window-to-handler table of a retained tree and the routing of its
/// view, position by position.
pub fn route_table(nodes: &Vec<NodeInfo>, routes: &Vec<Routing>) -> (r: Vec<RouteEntry>)
    ensures
        r@ == route_entries(nodes@, routes@, min_len(nodes@.len(), routes@.len())),
{
    let n = if nodes.len() < routes.len() {
        nodes.len()
    } else {
        routes.len()
    };
    let mut r: Vec<RouteEntry> = Vec::new();
    let mut k: usize = 0;
    while k < n
        invariant
            n == min_len(nodes@.len(), routes@.len()),
            0 <= k <= n,
            r@ == route_entries(nodes@, routes@, k as int),
        decreases n - k,
    {
        let rt = routes[k];
        if rt.action.is_some() || rt.colors.is_some() {
            r.push(RouteEntry { pos: k, hwnd: nodes[k].hwnd, routing: rt });
        }
        k = k + 1;
        proof {
            assert(r@ =~= route_entries(nodes@, routes@, k as int));
        }
    }
    r
}

pub proof fn lemma_route_entries_at(nodes: Seq<NodeInfo>, routes: Seq<Routing>, k: int)
    requires
        k <= usize::MAX + 1,
    ensures
        forall|j: int|
            0 <= j < route_entries(nodes, routes, k).len() ==> {
                let e = #[trigger] route_entries(nodes, routes, k)[j];
                &&& 0 <= e.pos < k
                &&& e.hwnd == nodes[e.pos as int].hwnd
                &&& e.routing == routes[e.pos as int]
                &&& routes_something(e.routing)
            },
    decreases k,
{
    if k > 0 {
        lemma_route_entries_at(nodes, routes, k - 1);
        let prev = route_entries(nodes, routes, k - 1);
        let tail = if routes_something(routes[k - 1]) {
            seq![RouteEntry { pos: (k - 1) as usize, hwnd: nodes[k - 1].hwnd, routing: routes[k - 1] }]
        } else {
            Seq::<RouteEntry>::empty()
        };
        assert forall|j: int| 0 <= j < (prev + tail).len() implies {
            let e = #[trigger] (prev + tail)[j];
            &&& 0 <= e.pos < k
            &&& e.hwnd == nodes[e.pos as int].hwnd
            &&& e.routing == routes[e.pos as int]
            &&& routes_something(e.routing)
        } by {
            if j < prev.len() {
                assert((prev + tail)[j] == prev[j]);
            } else {
                assert((prev + tail)[j] == tail[j - prev.len()]);
            }
        }
    }
}

/// A node that routes something owns a window.
pub proof fn lemma_routing_at(t: ViewNode, sh: Seq<(usize, bool)>, lo: int)
    requires
        reconciler::fits(t, sh, lo),
    ensures
        forall|i: int|
            0 <= i < preorder_routing(t).len() && routes_something(#[trigger] preorder_routing(t)[i])
                ==> sh[lo + i].1,
    decreases t, 1int,
{
    lemma_routing_len(t);
    if tree::kind_is_container(t.kind) {
        let cs = t.children@;
        let n = cs.len() as int;
        let head = seq![spec_routing(t)];
        let rest = all_routing(cs, n);
        lemma_all_routing_at(cs, sh, lo + 1, n);
        assert forall|i: int|
            0 <= i < (head + rest).len() && routes_something(#[trigger] (head + rest)[i]) implies sh[lo + i].1 by {
            if i == 0 {
                assert((head + rest)[0] == spec_routing(t));
            } else {
                assert((head + rest)[i] == rest[i - 1]);
            }
        }
    } else {
        assert(preorder_routing(t)[0] == spec_routing(t));
    }
}

pub proof fn lemma_all_routing_at(s: Seq<ViewNode>, sh: Seq<(usize, bool)>, lo: int, k: int)
    requires
        0 <= k <= s.len(),
        reconciler::fits_all(s, sh, lo, k),
    ensures
        forall|i: int|
            0 <= i < all_routing(s, k).len() && routes_something(#[trigger] all_routing(s, k)[i]) ==> sh[lo
                + i].1,
    decreases s, k,
{
    if k > 0 {
        lemma_all_routing_at(s, sh, lo, k - 1);
        lemma_all_routing_len(s, k - 1);
        let prev = all_routing(s, k - 1);
        let c = preorder_routing(s[k - 1]);
        lemma_routing_at(s[k - 1], sh, lo + tree::offset(s, k - 1));
        assert forall|i: int|
            0 <= i < (prev + c).len() && routes_something(#[trigger] (prev + c)[i]) implies sh[lo + i].1 by {
            if i < prev.len() {
                assert((prev + c)[i] == prev[i]);
            } else {
                assert((prev + c)[i] == c[i - prev.len()]);
            }
        }
    }
}

/// The window-to-handler table of a retained tree that describes a view
/// holds, for each node of the view that routes an action or edit colours,
/// that node's own window with that node's routing, in preorder; every
/// window in it is one the tree owns, so no virtual node and no window of
/// another tree appears.
pub proof fn law_route_table_reflects_the_view(t: ViewNode, nodes: Seq<NodeInfo>)
    requires
        reconciler::describes(t, nodes),
        nodes.len() <= usize::MAX,
    ensures
        forall|j: int|
            0 <= j < route_entries(nodes, preorder_routing(t), nodes.len() as int).len() ==> {
                let e = #[trigger] route_entries(nodes, preorder_routing(t), nodes.len() as int)[j];
                &&& 0 <= e.pos < nodes.len()
                &&& nodes[e.pos as int].owns_hwnd
                &&& e.hwnd == nodes[e.pos as int].hwnd
                &&& e.routing == preorder_routing(t)[e.pos as int]
            },
        min_len(nodes.len(), preorder_routing(t).len()) == nodes.len(),
{
    let routes = preorder_routing(t);
    lemma_routing_len(t);
    lemma_route_entries_at(nodes, routes, nodes.len() as int);
    lemma_routing_at(t, reconciler::shape(nodes), 0);
    let es = route_entries(nodes, routes, nodes.len() as int);
    assert forall|j: int| 0 <= j < es.len() implies {
        let e = #[trigger] es[j];
        &&& 0 <= e.pos < nodes.len()
        &&& nodes[e.pos as int].owns_hwnd
        &&& e.hwnd == nodes[e.pos as int].hwnd
        &&& e.routing == routes[e.pos as int]
    } by {
        let e = es[j];
        assert(routes_something(routes[e.pos as int]));
        assert(reconciler::shape(nodes)[e.pos as int].1 == nodes[e.pos as int].owns_hwnd);
    }
}


// ---------------------------------------------------------------------------
// What each handler is for
// ---------------------------------------------------------------------------

/// A check box with a toggle handler is routed as an automatic box exactly
/// when its style is `Auto` or `Auto3State` (the box switches itself, so
/// the state read back is the new one), and as a three-state box exactly
/// when its style is `ThreeState` or `Auto3State`; a click (`BN_CLICKED`)
/// on it reads its check state with those two flags.
pub proof fn law_checkbox_toggle_follows_style(h: Handlers, s: CheckBoxStyle, ctrl_id: u32)
    requires
        h.on_toggle,
    ensures
        spec_action(WidgetKind::CheckBox, h, checkbox_style_bits(s)) == Some(
            ActionKind::Toggle {
                auto: s is Auto || s is Auto3State,
                three_state: s is ThreeState || s is Auto3State,
            },
        ),
        spec_command_effect(
            spec_action(WidgetKind::CheckBox, h, checkbox_style_bits(s)).unwrap(),
            BN_CLICKED,
            ctrl_id,
        ) == (CommandEffect::ReadToggle {
            auto: s is Auto || s is Auto3State,
            three_state: s is ThreeState || s is Auto3State,
        }),
{
}

/// A window routed to a selection handler (list box, combo box, extended
/// combo box) reads its own selection on the selection-change
/// notification (`LBN_SELCHANGE` / `CBN_SELCHANGE`, both 1), whatever the
/// control id, and ignores every other notification code.
pub proof fn law_selection_changes_are_read(a: ActionKind, code: u32, ctrl_id: u32)
    requires
        a is SelectListBox || a is SelectComboBox || a is SelectComboBoxEx,
    ensures
        code == SEL_CHANGE && a is SelectListBox ==> spec_command_effect(a, code, ctrl_id)
            == CommandEffect::ReadListBoxSelection,
        code == SEL_CHANGE && a is SelectComboBox ==> spec_command_effect(a, code, ctrl_id)
            == CommandEffect::ReadComboBoxSelection,
        code == SEL_CHANGE && a is SelectComboBoxEx ==> spec_command_effect(a, code, ctrl_id)
            == CommandEffect::ReadComboBoxExSelection,
        code != SEL_CHANGE ==> spec_command_effect(a, code, ctrl_id) == CommandEffect::Ignore,
{
}

/// Every reading effect comes from the handler it serves: a selection is
/// read only for a window routed to that control's selection handler on
/// code 1, an edit text only on `EN_CHANGE`, a combo-box edit text only on
/// `CBN_EDITCHANGE`, a check state only on `BN_CLICKED` from a toggle.
pub proof fn law_reads_come_from_their_handler(a: ActionKind, code: u32, ctrl_id: u32)
    ensures
        spec_command_effect(a, code, ctrl_id) == CommandEffect::ReadListBoxSelection ==> a is SelectListBox
            && code == SEL_CHANGE,
        spec_command_effect(a, code, ctrl_id) == CommandEffect::ReadComboBoxSelection ==> a is SelectComboBox
            && code == SEL_CHANGE,
        spec_command_effect(a, code, ctrl_id) == CommandEffect::ReadComboBoxExSelection ==> a is SelectComboBoxEx
            && code == SEL_CHANGE,
        spec_command_effect(a, code, ctrl_id) == CommandEffect::ReadEditText ==> a is Change && code == EN_CHANGE,
        spec_command_effect(a, code, ctrl_id) == CommandEffect::ReadComboBoxEditText ==> a is EditComboBox
            && code == CBN_EDITCHANGE,
        spec_command_effect(a, code, ctrl_id) is ReadToggle ==> a is Toggle && code == BN_CLICKED,
{
}

pub proof fn lemma_route_entries_has(nodes: Seq<NodeInfo>, routes: Seq<Routing>, k: int, p: int)
    requires
        0 <= p < k,
        routes[p].action is Some || routes[p].colors is Some,
    ensures
        route_entries(nodes, routes, k).contains(
            RouteEntry { pos: p as usize, hwnd: nodes[p].hwnd, routing: routes[p] },
        ),
    decreases k,
{
    let prev = route_entries(nodes, routes, k - 1);
    let x = RouteEntry { pos: p as usize, hwnd: nodes[p].hwnd, routing: routes[p] };
    if p == k - 1 {
        assert((prev + seq![x])[prev.len() as int] == x);
    } else {
        lemma_route_entries_has(nodes, routes, k - 1, p);
        let i = choose|i: int| 0 <= i < prev.len() && prev[i] == x;
        let tail = if routes_something(routes[k - 1]) {
            seq![RouteEntry { pos: (k - 1) as usize, hwnd: nodes[k - 1].hwnd, routing: routes[k - 1] }]
        } else {
            Seq::<RouteEntry>::empty()
        };
        assert((prev + tail)[i] == x);
    }
}

/// The window-to-handler table misses no node: every position (within both
/// the retained nodes and the routing) whose routing carries an action or
/// edit colours, with or without a handler, has its entry with that
/// position, that position's window and that position's routing.
pub proof fn law_route_table_is_complete(nodes: Seq<NodeInfo>, routes: Seq<Routing>, p: int)
    requires
        0 <= p < min_len(nodes.len(), routes.len()),
        routes[p].action is Some || routes[p].colors is Some,
    ensures
        route_entries(nodes, routes, min_len(nodes.len(), routes.len())).contains(
            RouteEntry { pos: p as usize, hwnd: nodes[p].hwnd, routing: routes[p] },
        ),
{
    lemma_route_entries_has(nodes, routes, min_len(nodes.len(), routes.len()), p);
}


/// Each handler routed through `WM_COMMAND` fires on its notification: a
/// button click on any code; an edit's change on `EN_CHANGE`; a combo
/// box's edit change on `CBN_EDITCHANGE`; a toolbar click on any code, with
/// the clicked button's id; a toggle on `BN_CLICKED`, with the box's own
/// flags. Handlers that arrive through `WM_NOTIFY` or scrolling ignore
/// `WM_COMMAND`.
pub proof fn law_command_handlers_fire(a: ActionKind, code: u32, ctrl_id: u32)
    ensures
        a is Click ==> spec_command_effect(a, code, ctrl_id) == CommandEffect::EmitClick,
        a is Change && code == EN_CHANGE ==> spec_command_effect(a, code, ctrl_id) == CommandEffect::ReadEditText,
        a is EditComboBox && code == CBN_EDITCHANGE ==> spec_command_effect(a, code, ctrl_id)
            == CommandEffect::ReadComboBoxEditText,
        a is ToolbarButtonClick ==> spec_command_effect(a, code, ctrl_id) == CommandEffect::ToolbarButton(ctrl_id),
        (a matches ActionKind::Toggle { auto, three_state }) && code == BN_CLICKED ==> spec_command_effect(
            a,
            code,
            ctrl_id,
        ) == (CommandEffect::ReadToggle { auto: a->auto, three_state: a->three_state }),
        a is DateTimeChange || a is HeaderColumnClick || a is TabChange || a is TrackbarMove
            ==> spec_command_effect(a, code, ctrl_id) == CommandEffect::Ignore,
{
}

/// Every handler a widget carries for its own kind routes its window: a
/// button's click, an edit's change, a list box's or extended combo box's
/// selection, a combo box's edit change (or, without one, its selection),
/// a date picker's change, a header's column click, a tab control's tab
/// change, a toolbar's button click, a track bar's move, and a radio
/// button's toggle (always automatic, two-state). A widget without the
/// handler of its kind, and a container or the empty view, routes nothing.
pub proof fn law_handlers_route_their_window(kind: WidgetKind, h: Handlers, style: u32)
    ensures
        kind is Button ==> (spec_action(kind, h, style) == if h.on_click { Some(ActionKind::Click) } else { None }),
        kind is TextEdit ==> (spec_action(kind, h, style) == if h.on_change { Some(ActionKind::Change) } else { None }),
        kind is ListBox ==> (spec_action(kind, h, style) == if h.on_select { Some(ActionKind::SelectListBox) } else { None }),
        kind is ComboBoxEx ==> (spec_action(kind, h, style) == if h.on_select { Some(ActionKind::SelectComboBoxEx) } else { None }),
        kind is ComboBox && h.on_edit_change ==> spec_action(kind, h, style) == Some(ActionKind::EditComboBox),
        kind is ComboBox && !h.on_edit_change ==> (spec_action(kind, h, style) == if h.on_select { Some(ActionKind::SelectComboBox) } else { None }),
        kind is DateTime ==> (spec_action(kind, h, style) == if h.on_change { Some(ActionKind::DateTimeChange) } else { None }),
        kind is Header ==> (spec_action(kind, h, style) == if h.on_column_click { Some(ActionKind::HeaderColumnClick) } else { None }),
        kind is TabControl ==> (spec_action(kind, h, style) == if h.on_tab_change { Some(ActionKind::TabChange) } else { None }),
        kind is Toolbar ==> (spec_action(kind, h, style) == if h.on_button_click { Some(ActionKind::ToolbarButtonClick) } else { None }),
        kind is Trackbar ==> (spec_action(kind, h, style) == if h.on_change { Some(ActionKind::TrackbarMove) } else { None }),
        kind is RadioButton ==> (spec_action(kind, h, style) == if h.on_toggle {
            Some(ActionKind::Toggle { auto: true, three_state: false })
        } else {
            None
        }),
        kind is CheckBox ==> (spec_action(kind, h, style) is Some <==> h.on_toggle),
        tree::kind_is_virtual(kind) || kind is Label || kind is GroupBox ==> spec_action(kind, h, style) is None,
{
}


} // verus!
