//! What a native control needs when its widget changes: which messages to
//! send on creation and on update, and how raw control replies are read.
use vstd::prelude::*;

verus! {

/// The character sequences of a list of strings.
pub open spec fn string_views(s: Seq<String>) -> Seq<Seq<char>> {
    s.map_values(|x: String| x@)
}

/// Whether two item lists hold the same texts in the same order.
pub fn strings_eq(a: &Vec<String>, b: &Vec<String>) -> (r: bool)
    ensures
        r == (string_views(a@) == string_views(b@)),
{
    if a.len() != b.len() {
        proof {
            assert(string_views(a@).len() != string_views(b@).len());
        }
        return false;
    }
    let mut i: usize = 0;
    while i < a.len()
        invariant
            a@.len() == b@.len(),
            0 <= i <= a@.len(),
            forall|m: int| 0 <= m < i ==> a@[m]@ == b@[m]@,
        decreases a@.len() - i,
    {
        if !(a[i] == b[i]) {
            proof {
                assert(string_views(a@)[i as int] != string_views(b@)[i as int]);
            }
            return false;
        }
        i = i + 1;
    }
    proof {
        assert(string_views(a@) =~= string_views(b@));
    }
    true
}

/// Whether a control's text must be set: the old and new texts differ.
pub fn text_changed(old: &String, new: &String) -> (r: bool)
    ensures
        r == (old@ != new@),
{
    !(*old == *new)
}

/// The selection to apply when a list-like control's selection changes: the
/// new one, when there is one and it differs from the old one.
pub fn selection_update(old: Option<usize>, new: Option<usize>) -> (r: Option<usize>)
    ensures
        r == (if new is Some && old != new {
            new
        } else {
            None
        }),
{
    match new {
        Some(n) => match old {
            Some(o) => if o != n {
                Some(n)
            } else {
                None
            },
            None => Some(n),
        },
        None => None,
    }
}

/// How a combo box, extended combo box, list box, tab control or toolbar is
/// brought up to date: rebuild its items when they changed, then select.
#[derive(Debug, Clone, Copy, PartialEq, Eq, Structural)]
pub struct ListUpdate {
    pub rebuild: bool,
    pub select: Option<usize>,
}

/// The update of a list-like control from `old_items`/`old_sel` to
/// `new_items`/`new_sel`.
pub fn list_update(
    old_items: &Vec<String>,
    new_items: &Vec<String>,
    old_sel: Option<usize>,
    new_sel: Option<usize>,
) -> (r: ListUpdate)
    ensures
        r.rebuild == (string_views(old_items@) != string_views(new_items@)),
        r.select == (if new_sel is Some && old_sel != new_sel {
            new_sel
        } else {
            None
        }),
{
    ListUpdate { rebuild: !strings_eq(old_items, new_items), select: selection_update(old_sel, new_sel) }
}

/// The check state to send when a check box or radio button changes state.
pub fn check_update(old_state: i32, new_state: i32) -> (r: Option<i32>)
    ensures
        r == (if old_state != new_state {
            Some(new_state)
        } else {
            None
        }),
{
    if old_state != new_state {
        Some(new_state)
    } else {
        None
    }
}

/// The index a list-like control reports, or 0 when it reports none
/// (a negative reply).
pub fn index_or_zero(ret: isize) -> (r: usize)
    ensures
        ret >= 0 ==> r == ret,
        ret < 0 ==> r == 0,
{
    if ret >= 0 {
        ret as usize
    } else {
        0
    }
}

/// The first NUL in a UTF-16 buffer.
pub open spec fn first_nul(s: Seq<u16>) -> Option<int>
    decreases s.len(),
{
    if s.len() == 0 {
        None
    } else {
        match first_nul(s.drop_last()) {
            Some(i) => Some(i),
            None => if s.last() == 0 {
                Some(s.len() - 1)
            } else {
                None
            },
        }
    }
}

/// Cuts a UTF-16 text buffer at its first NUL, if any.
pub fn truncate_at_nul(buf: &mut Vec<u16>)
    ensures
        match first_nul(old(buf)@) {
            Some(i) => final(buf)@ == old(buf)@.take(i),
            None => final(buf)@ == old(buf)@,
        },
{
    let n = buf.len();
    let mut i: usize = 0;
    proof {
        assert(buf@.take(0) =~= Seq::<u16>::empty());
    }
    while i < n
        invariant
            n == buf@.len(),
            buf@ == old(buf)@,
            0 <= i <= n,
            first_nul(buf@.take(i as int)) is None,
        decreases n - i,
    {
        proof {
            assert(buf@.take(i + 1).drop_last() =~= buf@.take(i as int));
            lemma_first_nul_prefix(buf@, i + 1);
        }
        if buf[i] == 0 {
            buf.truncate(i);
            return;
        }
        i = i + 1;
    }
    proof {
        assert(buf@.take(n as int) =~= buf@);
    }
}

pub proof fn lemma_first_nul_prefix(s: Seq<u16>, k: int)
    requires
        0 <= k <= s.len(),
    ensures
        first_nul(s.take(k)) matches Some(i) ==> first_nul(s) == Some(i),
    decreases s.len() - k,
{
    if k < s.len() {
        lemma_first_nul_prefix(s, k + 1);
        assert(s.take(k + 1).drop_last() =~= s.take(k));
    } else {
        assert(s.take(k) =~= s);
    }
}

// ---------------------------------------------------------------------------
// Track bars
// ---------------------------------------------------------------------------

/// A selected range on a track bar.
#[derive(Debug, Clone, Copy, PartialEq, Eq, Structural)]
pub struct Selection {
    pub start: i32,
    pub end: i32,
}

/// The state of a track bar that the widget describes.
#[derive(Debug, Clone, Copy, PartialEq, Eq, Structural)]
pub struct TrackbarState {
    pub min: i32,
    pub max: i32,
    pub position: i32,
    pub page_size: Option<i32>,
    pub selection: Option<Selection>,
}

/// A message to a track bar (`TBM_*`), with its redraw flag where it has one.
#[derive(Debug, Clone, Copy, PartialEq, Eq, Structural)]
pub enum TrackbarMsg {
    SetRange { redraw: bool, min: i32, max: i32 },
    SetPageSize { size: i32 },
    SetSel { redraw: bool, start: i32, end: i32 },
    ClearSel { redraw: bool },
    SetPos { redraw: bool, pos: i32 },
}

/// The messages that initialise a new track bar: range, then page size and
/// selection when set, then position.
pub open spec fn spec_trackbar_init(s: TrackbarState) -> Seq<TrackbarMsg> {
    seq![TrackbarMsg::SetRange { redraw: true, min: s.min, max: s.max }] + (match s.page_size {
        Some(p) => seq![TrackbarMsg::SetPageSize { size: p }],
        None => Seq::empty(),
    }) + (match s.selection {
        Some(sel) => seq![TrackbarMsg::SetSel { redraw: false, start: sel.start, end: sel.end }],
        None => Seq::empty(),
    }) + seq![TrackbarMsg::SetPos { redraw: true, pos: s.position }]
}

/// The messages that bring a track bar from `old` to `new`: the range when
/// it changed; the page size when it changed to a set value; the selection
/// when it changed (set or cleared); the position when it changed.
pub open spec fn spec_trackbar_update(old: TrackbarState, new: TrackbarState) -> Seq<TrackbarMsg> {
    (if old.min != new.min || old.max != new.max {
        seq![TrackbarMsg::SetRange { redraw: true, min: new.min, max: new.max }]
    } else {
        Seq::empty()
    }) + (if old.page_size != new.page_size && new.page_size is Some {
        seq![TrackbarMsg::SetPageSize { size: new.page_size.unwrap() }]
    } else {
        Seq::empty()
    }) + (if old.selection != new.selection {
        match new.selection {
            Some(sel) => seq![TrackbarMsg::SetSel { redraw: true, start: sel.start, end: sel.end }],
            None => seq![TrackbarMsg::ClearSel { redraw: true }],
        }
    } else {
        Seq::empty()
    }) + (if old.position != new.position {
        seq![TrackbarMsg::SetPos { redraw: true, pos: new.position }]
    } else {
        Seq::empty()
    })
}

/// The messages that initialise a new track bar.
pub fn trackbar_init(s: &TrackbarState) -> (r: Vec<TrackbarMsg>)
    ensures
        r@ == spec_trackbar_init(*s),
{
    let mut r: Vec<TrackbarMsg> = Vec::new();
    r.push(TrackbarMsg::SetRange { redraw: true, min: s.min, max: s.max });
    if let Some(p) = s.page_size {
        r.push(TrackbarMsg::SetPageSize { size: p });
    }
    if let Some(sel) = s.selection {
        r.push(TrackbarMsg::SetSel { redraw: false, start: sel.start, end: sel.end });
    }
    r.push(TrackbarMsg::SetPos { redraw: true, pos: s.position });
    proof {
        assert(r@ =~= spec_trackbar_init(*s));
    }
    r
}

/// The messages that bring a track bar from `old` to `new`.
pub fn trackbar_update(old: &TrackbarState, new: &TrackbarState) -> (r: Vec<TrackbarMsg>)
    ensures
        r@ == spec_trackbar_update(*old, *new),
{
    let mut r: Vec<TrackbarMsg> = Vec::new();
    if old.min != new.min || old.max != new.max {
        r.push(TrackbarMsg::SetRange { redraw: true, min: new.min, max: new.max });
    }
    if old.page_size != new.page_size {
        if let Some(p) = new.page_size {
            r.push(TrackbarMsg::SetPageSize { size: p });
        }
    }
    if old.selection != new.selection {
        match new.selection {
            Some(sel) => r.push(TrackbarMsg::SetSel { redraw: true, start: sel.start, end: sel.end }),
            None => r.push(TrackbarMsg::ClearSel { redraw: true }),
        }
    }
    if old.position != new.position {
        r.push(TrackbarMsg::SetPos { redraw: true, pos: new.position });
    }
    proof {
        assert(r@ =~= spec_trackbar_update(*old, *new));
    }
    r
}

/// `MAKELONG`: the low 16 bits of `lo` below the low 16 bits of `hi`.
pub fn makelong(lo: i32, hi: i32) -> (r: isize)
    ensures
        r == ((lo as u16) + 65536 * (hi as u16)) as isize,
{
    let a = lo as u16 as usize;
    let b = hi as u16 as usize;
    assert(a < 65536 && b < 65536 ==> (a | (b << 16usize)) == a + 65536 * b) by (bit_vector);
    ((a | (b << 16usize)) as isize)
}


/// A message that sets a track bar's range.
pub open spec fn sets_range(m: TrackbarMsg) -> bool {
    m is SetRange
}

/// Updating a track bar sends a range message exactly when its minimum or
/// its maximum changed (either one), and then the range it sends is the new
/// one, with a redraw; likewise it sends a position message exactly when
/// the position changed, carrying the new position.
pub proof fn law_trackbar_update_sends_what_changed(old: TrackbarState, new: TrackbarState)
    ensures
        (old.min != new.min || old.max != new.max) ==> spec_trackbar_update(old, new).contains(
            TrackbarMsg::SetRange { redraw: true, min: new.min, max: new.max },
        ),
        (old.min == new.min && old.max == new.max) ==> forall|i: int|
            0 <= i < spec_trackbar_update(old, new).len() ==> !sets_range(
                #[trigger] spec_trackbar_update(old, new)[i],
            ),
        old.position != new.position ==> spec_trackbar_update(old, new).contains(
            TrackbarMsg::SetPos { redraw: true, pos: new.position },
        ),
        old.position == new.position ==> forall|i: int|
            0 <= i < spec_trackbar_update(old, new).len() ==> !(
            #[trigger] spec_trackbar_update(old, new)[i] is SetPos),
        old == new ==> spec_trackbar_update(old, new).len() == 0,
{
    let r = spec_trackbar_update(old, new);
    let a = if old.min != new.min || old.max != new.max {
        seq![TrackbarMsg::SetRange { redraw: true, min: new.min, max: new.max }]
    } else {
        Seq::empty()
    };
    let b = if old.page_size != new.page_size && new.page_size is Some {
        seq![TrackbarMsg::SetPageSize { size: new.page_size.unwrap() }]
    } else {
        Seq::empty()
    };
    let c = if old.selection != new.selection {
        match new.selection {
            Some(sel) => seq![TrackbarMsg::SetSel { redraw: true, start: sel.start, end: sel.end }],
            None => seq![TrackbarMsg::ClearSel { redraw: true }],
        }
    } else {
        Seq::empty()
    };
    let d = if old.position != new.position {
        seq![TrackbarMsg::SetPos { redraw: true, pos: new.position }]
    } else {
        Seq::empty()
    };
    assert(r == a + b + c + d);
    if old.min != new.min || old.max != new.max {
        assert(r[0] == TrackbarMsg::SetRange { redraw: true, min: new.min, max: new.max });
    } else {
        assert forall|i: int| 0 <= i < r.len() implies !sets_range(#[trigger] r[i]) by {
            assert(a.len() == 0);
            if i < b.len() {
                assert(r[i] == b[i]);
            } else if i < b.len() + c.len() {
                assert(r[i] == c[i - b.len()]);
            } else {
                assert(r[i] == d[i - b.len() - c.len()]);
            }
        }
    }
    let abc = a + b + c;
    if old.position != new.position {
        assert(r[abc.len() as int] == TrackbarMsg::SetPos { redraw: true, pos: new.position });
    } else {
        assert forall|i: int| 0 <= i < r.len() implies !(#[trigger] r[i] is SetPos) by {
            assert(d.len() == 0);
            assert(r == abc);
            if i < a.len() {
                assert(r[i] == a[i]);
            } else if i < a.len() + b.len() {
                assert(r[i] == b[i - a.len()]);
            } else {
                assert(r[i] == c[i - a.len() - b.len()]);
            }
        }
    }
}


/// A new track bar is first given its range and last its position, with a
/// redraw each; a page-size message comes exactly when a page size is set,
/// and a selection message exactly when a selection is set.
pub proof fn law_trackbar_init_sets_range_first_and_position_last(t: TrackbarState)
    ensures
        spec_trackbar_init(t).len() >= 2,
        spec_trackbar_init(t)[0] == (TrackbarMsg::SetRange { redraw: true, min: t.min, max: t.max }),
        spec_trackbar_init(t).last() == (TrackbarMsg::SetPos { redraw: true, pos: t.position }),
        spec_trackbar_init(t).len() == 2 + (if t.page_size is Some { 1int } else { 0 }) + (if t.selection is Some {
            1int
        } else {
            0
        }),
        t.page_size matches Some(p) ==> spec_trackbar_init(t)[1] == (TrackbarMsg::SetPageSize { size: p }),
        t.selection matches Some(sel) ==> spec_trackbar_init(t).contains(
            TrackbarMsg::SetSel { redraw: false, start: sel.start, end: sel.end },
        ),
{
    let r = spec_trackbar_init(t);
    if let Some(sel) = t.selection {
        let k = r.len() - 2;
        assert(r[k] == TrackbarMsg::SetSel { redraw: false, start: sel.start, end: sel.end });
    }
}

} // verus!
