//! The shape of a declarative view: what kind each widget is, its optional
//! sibling-scoped key, its children, and which event handlers it carries.
//!
//! Layout numbers, texts and callbacks stay with the full widget description;
//! the reconciler and the event routing only read what is modelled here.
use vstd::prelude::*;

verus! {

/// The kind of a widget node. `Column` and `Row` are virtual containers and
/// `Empty` is the empty view; none of the three owns a native window.
#[derive(Debug, Clone, Copy, PartialEq, Eq, Structural)]
pub enum WidgetKind {
    Empty,
    Column,
    Row,
    Button,
    Label,
    TextEdit,
    ListBox,
    ComboBox,
    ComboBoxEx,
    DateTime,
    CheckBox,
    RadioButton,
    GroupBox,
    Header,
    TabControl,
    Toolbar,
    Trackbar,
}

pub open spec fn kind_is_container(k: WidgetKind) -> bool {
    k is Column || k is Row
}

pub open spec fn kind_is_virtual(k: WidgetKind) -> bool {
    k is Column || k is Row || k is Empty
}

impl WidgetKind {
    /// True for `Column` and `Row`, the kinds that hold children.
    pub fn is_container(self) -> (r: bool)
        ensures
            r == kind_is_container(self),
    {
        match self {
            WidgetKind::Column | WidgetKind::Row => true,
            _ => false,
        }
    }

    /// True for the kinds that never own a native window.
    pub fn is_virtual(self) -> (r: bool)
        ensures
            r == kind_is_virtual(self),
    {
        match self {
            WidgetKind::Column | WidgetKind::Row | WidgetKind::Empty => true,
            _ => false,
        }
    }
}

/// Which event handlers a widget node carries.
#[derive(Debug, Clone, Copy, PartialEq, Eq, Structural)]
pub struct Handlers {
    pub on_click: bool,
    pub on_change: bool,
    pub on_select: bool,
    pub on_edit_change: bool,
    pub on_column_click: bool,
    pub on_tab_change: bool,
    pub on_button_click: bool,
    pub on_toggle: bool,
}

pub open spec fn no_handlers() -> Handlers {
    Handlers {
        on_click: false,
        on_change: false,
        on_select: false,
        on_edit_change: false,
        on_column_click: false,
        on_tab_change: false,
        on_button_click: false,
        on_toggle: false,
    }
}

impl Handlers {
    /// No handler at all.
    pub fn none() -> (r: Handlers)
        ensures
            r == no_handlers(),
    {
        Handlers {
            on_click: false,
            on_change: false,
            on_select: false,
            on_edit_change: false,
            on_column_click: false,
            on_tab_change: false,
            on_button_click: false,
            on_toggle: false,
        }
    }
}

/// The colours of a text edit: text and background, as `COLORREF`s.
#[derive(Debug, Clone, Copy, PartialEq, Eq, Structural)]
pub struct EditColors {
    pub text: u32,
    pub background: u32,
}

/// One node of a view: its kind, its key (unique among its siblings when
/// present), its children (read only for containers), its handlers, the
/// check-box style bits (read only for check boxes) and the edit colours
/// (text, background) of a text edit.
#[derive(Debug)]
pub struct ViewNode {
    pub kind: WidgetKind,
    pub key: Option<String>,
    pub children: Vec<ViewNode>,
    pub handlers: Handlers,
    pub checkbox_style: u32,
    pub colors: Option<EditColors>,
}

/// The key of a node as a character sequence.
pub open spec fn key_view(t: ViewNode) -> Option<Seq<char>> {
    match t.key {
        Some(k) => Some(k@),
        None => None,
    }
}

/// Number of nodes of the tree in preorder (children of non-containers are
/// not part of the tree).
pub open spec fn size(t: ViewNode) -> nat
    decreases t, 1nat,
{
    if kind_is_container(t.kind) {
        1 + sizes(t.children@)
    } else {
        1
    }
}

/// Total number of preorder nodes of a sequence of sibling trees.
pub open spec fn sizes(s: Seq<ViewNode>) -> nat
    decreases s, 0nat,
{
    if s.len() == 0 {
        0
    } else {
        sizes(s.drop_last()) + size(s.last())
    }
}

/// The children that belong to the tree: those of a container, none otherwise.
pub open spec fn kids(t: ViewNode) -> Seq<ViewNode> {
    if kind_is_container(t.kind) {
        t.children@
    } else {
        Seq::empty()
    }
}

/// Preorder offset of child `j` inside the block of children that follows
/// its parent.
pub open spec fn offset(s: Seq<ViewNode>, j: int) -> nat {
    sizes(s.take(j))
}

pub proof fn lemma_sizes_take_step(s: Seq<ViewNode>, j: int)
    requires
        0 <= j < s.len(),
    ensures
        sizes(s.take(j + 1)) == sizes(s.take(j)) + size(s[j]),
{
    assert(s.take(j + 1).drop_last() =~= s.take(j));
}

pub proof fn lemma_sizes_take_all(s: Seq<ViewNode>)
    ensures
        sizes(s.take(s.len() as int)) == sizes(s),
{
    assert(s.take(s.len() as int) =~= s);
}

pub proof fn lemma_offset_mono(s: Seq<ViewNode>, i: int, j: int)
    requires
        0 <= i <= j <= s.len(),
    ensures
        offset(s, i) <= offset(s, j),
    decreases j - i,
{
    if i < j {
        lemma_offset_mono(s, i, j - 1);
        lemma_sizes_take_step(s, j - 1);
    }
}

/// Sibling keys are pairwise distinct.
pub open spec fn sibling_keys_distinct(s: Seq<ViewNode>) -> bool {
    forall|i: int, j: int|
        0 <= i < j < s.len() && (#[trigger] s[i]).key is Some ==> key_view(s[i]) != key_view(
            #[trigger] s[j],
        )
}

/// Every sibling scope of the tree has distinct keys.
pub open spec fn keys_unique(t: ViewNode) -> bool
    decreases t, 1int,
{
    kind_is_container(t.kind) ==> (sibling_keys_distinct(t.children@) && all_keys_unique(
        t.children@,
        t.children@.len() as int,
    ))
}

/// Every sibling scope inside the first `k` trees has distinct keys.
pub open spec fn all_keys_unique(s: Seq<ViewNode>, k: int) -> bool
    decreases s, k,
{
    if k <= 0 || k > s.len() {
        true
    } else {
        all_keys_unique(s, k - 1) && keys_unique(s[k - 1])
    }
}

/// Two siblings carry the key `k`.
pub open spec fn sibling_dup(s: Seq<ViewNode>, k: Seq<char>) -> bool {
    exists|i: int, j: int|
        0 <= i < j < s.len() && key_view(#[trigger] s[i]) == Some(k) && key_view(#[trigger] s[j])
            == Some(k)
}

/// Some sibling scope of the tree holds the key `k` twice.
pub open spec fn dup_key_in(t: ViewNode, k: Seq<char>) -> bool
    decreases t, 1int,
{
    kind_is_container(t.kind) && (sibling_dup(t.children@, k) || dup_in_all(
        t.children@,
        k,
        t.children@.len() as int,
    ))
}

/// Some sibling scope inside the first `n` trees holds the key `k` twice.
pub open spec fn dup_in_all(s: Seq<ViewNode>, k: Seq<char>, n: int) -> bool
    decreases s, n,
{
    if n <= 0 || n > s.len() {
        false
    } else {
        dup_in_all(s, k, n - 1) || dup_key_in(s[n - 1], k)
    }
}

pub proof fn lemma_dup_not_unique(t: ViewNode, k: Seq<char>)
    requires
        dup_key_in(t, k),
    ensures
        !keys_unique(t),
    decreases t, 1int,
{
    if sibling_dup(t.children@, k) {
        let (i, j) = choose|i: int, j: int|
            0 <= i < j < t.children@.len() && key_view(#[trigger] t.children@[i]) == Some(k)
                && key_view(#[trigger] t.children@[j]) == Some(k);
        assert(t.children@[i].key is Some);
    } else {
        lemma_dup_all_not_unique(t.children@, k, t.children@.len() as int);
    }
}

pub proof fn lemma_dup_all_not_unique(s: Seq<ViewNode>, k: Seq<char>, n: int)
    requires
        dup_in_all(s, k, n),
    ensures
        !all_keys_unique(s, n),
    decreases s, n,
{
    if dup_in_all(s, k, n - 1) {
        lemma_dup_all_not_unique(s, k, n - 1);
    } else {
        lemma_dup_not_unique(s[n - 1], k);
    }
}

/// Key `k` is carried by one of the first `j` siblings.
pub open spec fn key_among(s: Seq<ViewNode>, k: Seq<char>, j: int) -> bool {
    exists|a: int| 0 <= a < j && key_view(#[trigger] s[a]) == Some(k)
}

/// The first key found twice when the sibling scopes of the tree are
/// visited in preorder, each child's key being checked against its earlier
/// siblings before the child's own children are visited.
pub open spec fn first_dup(t: ViewNode) -> Option<Seq<char>>
    decreases t, 0int,
{
    if kind_is_container(t.kind) {
        first_dup_from(t.children@, 0)
    } else {
        None
    }
}

/// `first_dup` over the siblings from index `j` on (earlier siblings only
/// serve to detect repeated keys).
pub open spec fn first_dup_from(s: Seq<ViewNode>, j: int) -> Option<Seq<char>>
    decreases s, s.len() - j,
{
    if j < 0 || j >= s.len() {
        None
    } else if key_view(s[j]) is Some && key_among(s, key_view(s[j]).unwrap(), j) {
        key_view(s[j])
    } else if first_dup(s[j]) is Some {
        first_dup(s[j])
    } else {
        first_dup_from(s, j + 1)
    }
}

/// The first key that occurs twice in a sibling scope (see `first_dup`), or
/// `None` when every sibling scope has distinct keys.
pub fn validate_keys(t: &ViewNode) -> (r: Option<&String>)
    ensures
        r is None <==> keys_unique(*t),
        r matches Some(k) ==> dup_key_in(*t, k@),
        match r {
            Some(k) => first_dup(*t) == Some(k@),
            None => first_dup(*t) is None,
        },
    decreases *t,
{
    if !t.kind.is_container() {
        return None;
    }
    let n = t.children.len();
    let mut j: usize = 0;
    while j < n
        invariant
            n == t.children@.len(),
            kind_is_container(t.kind),
            0 <= j <= n,
            forall|a: int, b: int|
                0 <= a < b < j && (#[trigger] t.children@[a]).key is Some ==> key_view(
                    t.children@[a],
                ) != key_view(#[trigger] t.children@[b]),
            all_keys_unique(t.children@, j as int),
            first_dup_from(t.children@, 0) == first_dup_from(t.children@, j as int),
        decreases n - j,
    {
        if let Some(k) = &t.children[j].key {
            let mut i: usize = 0;
            while i < j
                invariant
                    0 <= i <= j < n,
                    kind_is_container(t.kind),
                    n == t.children@.len(),
                    t.children@[j as int].key == Some(*k),
                    forall|a: int| 0 <= a < i ==> key_view(#[trigger] t.children@[a]) != Some(k@),
                    first_dup_from(t.children@, 0) == first_dup_from(t.children@, j as int),
                decreases j - i,
            {
                let same = match &t.children[i].key {
                    Some(x) => *x == *k,
                    None => false,
                };
                if same {
                    proof {
                        assert(key_view(t.children@[i as int]) == Some(k@));
                        assert(key_view(t.children@[j as int]) == Some(k@));
                        assert(key_among(t.children@, k@, j as int));
                        assert(first_dup_from(t.children@, j as int) == Some(k@));
                        assert(sibling_dup(t.children@, k@));
                        assert(dup_key_in(*t, k@));
                        lemma_dup_not_unique(*t, k@);
                    }
                    return Some(k);
                }
                i = i + 1;
            }
            proof {
                assert(!key_among(t.children@, k@, j as int));
            }
        }
        match validate_keys(&t.children[j]) {
            Some(d) => {
                proof {
                    lemma_dup_in_all_mono(t.children@, d@, j + 1, n as int);
                    assert(dup_key_in(*t, d@));
                    lemma_dup_not_unique(*t, d@);
                }
                return Some(d);
            },
            None => {},
        }
        proof {
            assert(first_dup_from(t.children@, j as int) == first_dup_from(t.children@, j + 1));
        }
        j = j + 1;
    }
    None
}

pub proof fn lemma_dup_in_all_mono(s: Seq<ViewNode>, k: Seq<char>, m: int, n: int)
    requires
        0 < m <= n <= s.len(),
        dup_key_in(s[m - 1], k),
    ensures
        dup_in_all(s, k, n),
    decreases n - m,
{
    if m < n {
        lemma_dup_in_all_mono(s, k, m, n - 1);
    }
}

/// Whether two optional keys are equal.
pub fn key_eq(a: &Option<String>, b: &Option<String>) -> (r: bool)
    ensures
        r == (match a {
            Some(x) => Some(x@),
            None => None,
        } == match b {
            Some(y) => Some(y@),
            None => None,
        }),
{
    match (a, b) {
        (Some(x), Some(y)) => *x == *y,
        (None, None) => true,
        _ => false,
    }
}

impl ViewNode {
    /// A node of the given kind with no key, no children and no handlers.
    pub fn leaf(kind: WidgetKind) -> (r: ViewNode)
        ensures
            r.kind == kind,
            r.key is None,
            r.children@.len() == 0,
            r.handlers == no_handlers(),
            r.checkbox_style == 0,
            r.colors is None,
    {
        ViewNode {
            kind,
            key: None,
            children: Vec::new(),
            handlers: Handlers::none(),
            checkbox_style: 0,
            colors: None,
        }
    }

    /// A column holding the given children.
    pub fn column(children: Vec<ViewNode>) -> (r: ViewNode)
        ensures
            r.kind == WidgetKind::Column,
            r.key is None,
            r.children@ == children@,
            r.handlers == no_handlers(),
            r.checkbox_style == 0,
            r.colors is None,
    {
        ViewNode {
            kind: WidgetKind::Column,
            key: None,
            children,
            handlers: Handlers::none(),
            checkbox_style: 0,
            colors: None,
        }
    }

    /// A row holding the given children.
    pub fn row(children: Vec<ViewNode>) -> (r: ViewNode)
        ensures
            r.kind == WidgetKind::Row,
            r.key is None,
            r.children@ == children@,
            r.handlers == no_handlers(),
            r.checkbox_style == 0,
            r.colors is None,
    {
        ViewNode {
            kind: WidgetKind::Row,
            key: None,
            children,
            handlers: Handlers::none(),
            checkbox_style: 0,
            colors: None,
        }
    }

    /// The same node carrying `key`; the key adds no node of its own.
    pub fn keyed(self, key: String) -> (r: ViewNode)
        ensures
            r.kind == self.kind,
            key_view(r) == Some(key@),
            r.children == self.children,
            r.handlers == self.handlers,
            r.checkbox_style == self.checkbox_style,
            r.colors == self.colors,
    {
        ViewNode { key: Some(key), ..self }
    }

    /// The same node with a child appended (meaningful for containers).
    pub fn push(self, child: ViewNode) -> (r: ViewNode)
        ensures
            r.kind == self.kind,
            r.key == self.key,
            r.children@ == self.children@.push(child),
            r.handlers == self.handlers,
            r.checkbox_style == self.checkbox_style,
            r.colors == self.colors,
    {
        let mut s = self;
        s.children.push(child);
        s
    }

    /// True for `Column` and `Row`.
    pub fn is_container(&self) -> (r: bool)
        ensures
            r == kind_is_container(self.kind),
    {
        self.kind.is_container()
    }

    /// The children that belong to the tree: those of a container, none
    /// otherwise.
    pub fn children(&self) -> (r: &[ViewNode])
        ensures
            r@ == kids(*self),
    {
        if self.kind.is_container() {
            self.children.as_slice()
        } else {
            &[]
        }
    }

    /// Whether two nodes are of the same widget kind (keys are ignored).
    pub fn variant_eq(&self, other: &ViewNode) -> (r: bool)
        ensures
            r == (self.kind == other.kind),
    {
        self.kind == other.kind
    }

    /// The node's key, if any.
    pub fn key_value(&self) -> (r: Option<&String>)
        ensures
            match r {
                Some(k) => key_view(*self) == Some(k@),
                None => self.key is None,
            },
    {
        match &self.key {
            Some(k) => Some(k),
            None => None,
        }
    }
}

} // verus!
