use elm_win32::controls::{
    index_or_zero, list_update, makelong, selection_update, trackbar_init, trackbar_update,
    truncate_at_nul, check_update, text_changed, ListUpdate, Selection, TrackbarMsg, TrackbarState,
};
use elm_win32::messages::{decode_message, WindowEvent, WM_COMMAND, WM_DPICHANGED, WM_SIZE};
use elm_win32::program::Cmd;
use elm_win32::routing::{
    action_for, command_effect, notify_effect, routing_in_preorder, scroll_reads_position,
    toggle_next_state, ActionKind, CommandEffect, NotifyCode, NotifyEffect,
};
use elm_win32::style::{
    ButtonStyle, CheckBoxStyle, Color, ComboBoxStyle, DateTimeFormat, EditStyle,
};
use elm_win32::tree::{EditColors, Handlers, ViewNode, WidgetKind};

#[test]
fn test_cmd_none() {
    let cmd: Cmd<u8> = Cmd::none();
    assert!(cmd.into_vec().is_empty());
}

#[test]
fn cmd_batch_keeps_order() {
    let cmd = Cmd::batch(vec![3, 1, 2]);
    assert_eq!(cmd.into_vec(), vec![3, 1, 2]);
}

#[test]
fn test_column_builder() {
    let w = ViewNode::column(vec![ViewNode::leaf(WidgetKind::Label), ViewNode::leaf(WidgetKind::Button)]);
    assert!(w.is_container());
    assert_eq!(w.children().len(), 2);
}

#[test]
fn test_variant_eq() {
    let a = ViewNode::leaf(WidgetKind::Label);
    let b = ViewNode::leaf(WidgetKind::Label);
    let c = ViewNode::leaf(WidgetKind::Button);
    assert!(a.variant_eq(&b));
    assert!(!a.variant_eq(&c));
}

#[test]
fn keys_are_transparent_to_kind_and_children() {
    let keyed = ViewNode::row(vec![ViewNode::leaf(WidgetKind::Label)]).keyed("k".to_string());
    assert!(keyed.is_container());
    assert_eq!(keyed.children().len(), 1);
    assert_eq!(keyed.key_value().map(|k| k.as_str()), Some("k"));
    assert!(ViewNode::leaf(WidgetKind::Label).key_value().is_none());
    // a leaf's stray children are not part of the tree
    let leaf = ViewNode::leaf(WidgetKind::Button).push(ViewNode::leaf(WidgetKind::Label));
    assert!(leaf.children().is_empty());
}

#[test]
fn style_bits_match_win32() {
    assert_eq!(ButtonStyle::Normal.win32_style(), 0);
    assert_eq!(ButtonStyle::Flat.win32_style(), 0x8000);
    assert_eq!(ButtonStyle::Default.win32_style(), 1);
    assert_eq!(CheckBoxStyle::Auto.win32_style(), 3);
    assert_eq!(CheckBoxStyle::Manual.win32_style(), 2);
    assert_eq!(CheckBoxStyle::ThreeState.win32_style(), 5);
    assert_eq!(CheckBoxStyle::Auto3State.win32_style(), 6);
    assert_eq!(ComboBoxStyle::Simple.win32_style(), 1);
    assert_eq!(ComboBoxStyle::Dropdown.win32_style(), 2);
    assert_eq!(ComboBoxStyle::DropdownList.win32_style(), 3);
    assert_eq!(DateTimeFormat::ShortDate.win32_style(), 0);
    assert_eq!(DateTimeFormat::LongDate.win32_style(), 4);
    assert_eq!(DateTimeFormat::Time.win32_style(), 9);
    assert_eq!(DateTimeFormat::ShortDateCentury.win32_style(), 0xC);
    assert_eq!(EditStyle::SingleLine.win32_style(), 0);
    assert_eq!(EditStyle::MultiLine.win32_style(), 4);
    assert_eq!(EditStyle::ReadOnly.win32_style(), 0x800);
    assert_eq!(EditStyle::Password.win32_style(), 0x20);
    assert_eq!(EditStyle::Number.win32_style(), 0x2000);
    assert_eq!(ButtonStyle::default(), ButtonStyle::Normal);
    assert_eq!(CheckBoxStyle::default(), CheckBoxStyle::Auto);
    assert_eq!(ComboBoxStyle::default(), ComboBoxStyle::DropdownList);
    assert_eq!(DateTimeFormat::default(), DateTimeFormat::ShortDate);
    assert_eq!(EditStyle::default(), EditStyle::SingleLine);
}

#[test]
fn colors_are_colorrefs() {
    assert_eq!(Color::rgb(0x12, 0x34, 0x56).to_colorref(), 0x0056_3412);
    assert_eq!(Color::rgb(255, 255, 255), Color::white());
    assert_eq!(Color::black().to_colorref(), 0);
    assert_eq!(Color::gray().to_colorref(), 0x0080_8080);
    assert_eq!(Color::light_gray().to_colorref(), 0x00E0_E0E0);
    assert_eq!(Color::from(0x00FF_0000u32), Color::rgb(0, 0, 255));
}

fn with(kind: WidgetKind, set: impl FnOnce(&mut Handlers)) -> ViewNode {
    let mut n = ViewNode::leaf(kind);
    set(&mut n.handlers);
    n
}

#[test]
fn actions_follow_kind_and_handlers() {
    assert_eq!(action_for(&with(WidgetKind::Button, |h| h.on_click = true)), Some(ActionKind::Click));
    assert_eq!(action_for(&ViewNode::leaf(WidgetKind::Button)), None);
    assert_eq!(action_for(&with(WidgetKind::TextEdit, |h| h.on_change = true)), Some(ActionKind::Change));
    assert_eq!(
        action_for(&with(WidgetKind::ComboBox, |h| {
            h.on_select = true;
            h.on_edit_change = true;
        })),
        Some(ActionKind::EditComboBox)
    );
    assert_eq!(action_for(&with(WidgetKind::ComboBox, |h| h.on_select = true)), Some(ActionKind::SelectComboBox));
    assert_eq!(action_for(&with(WidgetKind::Trackbar, |h| h.on_change = true)), Some(ActionKind::TrackbarMove));
    let mut cb = with(WidgetKind::CheckBox, |h| h.on_toggle = true);
    cb.checkbox_style = CheckBoxStyle::Auto3State.win32_style();
    assert_eq!(action_for(&cb), Some(ActionKind::Toggle { auto: true, three_state: true }));
    cb.checkbox_style = CheckBoxStyle::Manual.win32_style();
    assert_eq!(action_for(&cb), Some(ActionKind::Toggle { auto: false, three_state: false }));
    assert_eq!(
        action_for(&with(WidgetKind::RadioButton, |h| h.on_toggle = true)),
        Some(ActionKind::Toggle { auto: true, three_state: false })
    );
    // a handler flag on a kind that does not use it routes nothing
    assert_eq!(action_for(&with(WidgetKind::Label, |h| h.on_click = true)), None);
}

#[test]
fn routing_table_is_in_preorder_and_skips_containers() {
    let mut edit = with(WidgetKind::TextEdit, |h| h.on_change = true);
    edit.colors = Some(EditColors { text: 1, background: 2 });
    let view = ViewNode::column(vec![
        with(WidgetKind::Button, |h| h.on_click = true),
        ViewNode::row(vec![edit]).keyed("r".to_string()),
    ]);
    let table = routing_in_preorder(&view);
    assert_eq!(table.len(), 4);
    assert_eq!(table[0].action, None);
    assert_eq!(table[1].action, Some(ActionKind::Click));
    assert_eq!(table[2].action, None);
    assert_eq!(table[3].action, Some(ActionKind::Change));
    assert_eq!(table[3].colors, Some(EditColors { text: 1, background: 2 }));
    assert_eq!(table[1].colors, None);
}

#[test]
fn command_codes_select_what_to_read() {
    assert_eq!(command_effect(ActionKind::Click, 0, 7), CommandEffect::EmitClick);
    assert_eq!(command_effect(ActionKind::Change, 0x0300, 0), CommandEffect::ReadEditText);
    assert_eq!(command_effect(ActionKind::Change, 0x0400, 0), CommandEffect::Ignore);
    assert_eq!(command_effect(ActionKind::SelectListBox, 1, 0), CommandEffect::ReadListBoxSelection);
    assert_eq!(command_effect(ActionKind::SelectComboBox, 5, 0), CommandEffect::Ignore);
    assert_eq!(command_effect(ActionKind::EditComboBox, 5, 0), CommandEffect::ReadComboBoxEditText);
    assert_eq!(command_effect(ActionKind::SelectComboBoxEx, 1, 0), CommandEffect::ReadComboBoxExSelection);
    assert_eq!(command_effect(ActionKind::ToolbarButtonClick, 0, 4), CommandEffect::ToolbarButton(4));
    assert_eq!(command_effect(ActionKind::TrackbarMove, 0, 0), CommandEffect::Ignore);
    assert_eq!(command_effect(ActionKind::DateTimeChange, 0, 0), CommandEffect::Ignore);
    assert_eq!(
        command_effect(ActionKind::Toggle { auto: false, three_state: true }, 0, 0),
        CommandEffect::ReadToggle { auto: false, three_state: true }
    );
    assert_eq!(command_effect(ActionKind::Toggle { auto: true, three_state: false }, 1, 0), CommandEffect::Ignore);
}

#[test]
fn toggle_states_cycle() {
    assert_eq!(toggle_next_state(1, true, false), 1);
    assert_eq!(toggle_next_state(0, false, false), 1);
    assert_eq!(toggle_next_state(1, false, false), 0);
    assert_eq!(toggle_next_state(0, false, true), 1);
    assert_eq!(toggle_next_state(1, false, true), 2);
    assert_eq!(toggle_next_state(2, false, true), 0);
}

#[test]
fn notifications_and_scrolls() {
    assert_eq!(notify_effect(ActionKind::DateTimeChange, NotifyCode::DateTimeChange), NotifyEffect::ReadDateTime);
    assert_eq!(notify_effect(ActionKind::HeaderColumnClick, NotifyCode::HeaderItemClick), NotifyEffect::HeaderItem);
    assert_eq!(notify_effect(ActionKind::TabChange, NotifyCode::TabSelChange), NotifyEffect::ReadTabSelection);
    assert_eq!(notify_effect(ActionKind::TabChange, NotifyCode::DateTimeChange), NotifyEffect::Ignore);
    assert_eq!(notify_effect(ActionKind::Click, NotifyCode::Other), NotifyEffect::Ignore);
    assert!(scroll_reads_position(ActionKind::TrackbarMove));
    assert!(!scroll_reads_position(ActionKind::Click));
}

#[test]
fn window_messages_decode() {
    assert_eq!(
        decode_message(WM_COMMAND, 0x0300_0012, 0x4242),
        WindowEvent::Command { child: 0x4242, code: 0x0300, ctrl_id: 0x12 }
    );
    assert_eq!(decode_message(WM_SIZE, 0, 0x0258_0320), WindowEvent::Size { width: 800, height: 600 });
    assert_eq!(decode_message(WM_DPICHANGED, 0x0090_0090, 0), WindowEvent::DpiChanged { dpi: 144 });
    assert_eq!(decode_message(0x0002, 0, 0), WindowEvent::Destroy);
    assert_eq!(decode_message(0x0010, 0, 0), WindowEvent::Close);
    assert_eq!(decode_message(0x0014, 0, 0), WindowEvent::EraseBackground);
    assert_eq!(decode_message(0x0133, 0, 77), WindowEvent::CtlColorEdit { child: 77 });
    assert_eq!(decode_message(0x0138, 0, 0), WindowEvent::CtlColorStatic);
    assert_eq!(decode_message(0x004E, 0, 0), WindowEvent::Notify);
    assert_eq!(decode_message(0x0200, 0, 0), WindowEvent::Unhandled);
}

#[test]
fn control_updates() {
    let a = vec!["x".to_string(), "y".to_string()];
    let b = vec!["x".to_string(), "z".to_string()];
    assert_eq!(list_update(&a, &a, Some(1), Some(1)), ListUpdate { rebuild: false, select: None });
    assert_eq!(list_update(&a, &b, Some(1), Some(0)), ListUpdate { rebuild: true, select: Some(0) });
    assert_eq!(list_update(&a, &a, Some(1), None), ListUpdate { rebuild: false, select: None });
    assert_eq!(selection_update(None, Some(2)), Some(2));
    assert_eq!(check_update(0, 1), Some(1));
    assert_eq!(check_update(2, 2), None);
    assert!(text_changed(&"a".to_string(), &"b".to_string()));
    assert!(!text_changed(&"same".to_string(), &"same".to_string()));
    assert_eq!(index_or_zero(3), 3);
    assert_eq!(index_or_zero(-1), 0);
}

#[test]
fn utf16_buffers_are_cut_at_nul() {
    let mut buf = vec![104u16, 105, 0, 120];
    truncate_at_nul(&mut buf);
    assert_eq!(buf, vec![104, 105]);
    let mut full = vec![104u16, 105];
    truncate_at_nul(&mut full);
    assert_eq!(full, vec![104, 105]);
}

#[test]
fn trackbar_messages() {
    let s = TrackbarState { min: 0, max: 100, position: 40, page_size: Some(10), selection: None };
    assert_eq!(
        trackbar_init(&s),
        vec![
            TrackbarMsg::SetRange { redraw: true, min: 0, max: 100 },
            TrackbarMsg::SetPageSize { size: 10 },
            TrackbarMsg::SetPos { redraw: true, pos: 40 },
        ]
    );
    let t = TrackbarState { position: 50, selection: Some(Selection { start: 10, end: 20 }), ..s };
    assert_eq!(
        trackbar_update(&s, &t),
        vec![
            TrackbarMsg::SetSel { redraw: true, start: 10, end: 20 },
            TrackbarMsg::SetPos { redraw: true, pos: 50 },
        ]
    );
    assert_eq!(trackbar_update(&t, &s), vec![TrackbarMsg::ClearSel { redraw: true }, TrackbarMsg::SetPos { redraw: true, pos: 40 }]);
    assert!(trackbar_update(&s, &s).is_empty());
    let u = TrackbarState { page_size: None, ..s };
    assert!(trackbar_update(&s, &u).is_empty());
    assert_eq!(makelong(1, 2), 0x0002_0001);
    assert_eq!(makelong(-1, 0), 0xFFFF);
}

#[test]
fn routing_is_the_same_with_or_without_keys() {
    let build = |keyed: bool| {
        let mut edit = with(WidgetKind::TextEdit, |h| h.on_change = true);
        edit.colors = Some(EditColors { text: 3, background: 4 });
        let button = with(WidgetKind::Button, |h| h.on_click = true);
        let row = ViewNode::row(vec![edit]);
        if keyed {
            ViewNode::column(vec![button.keyed("b".to_string()), row.keyed("r".to_string())])
        } else {
            ViewNode::column(vec![button, row])
        }
    };
    let keyed = routing_in_preorder(&build(true));
    let plain = routing_in_preorder(&build(false));
    assert_eq!(keyed, plain);
    assert_eq!(keyed[1].action, Some(ActionKind::Click));
    assert_eq!(keyed[3].colors, Some(EditColors { text: 3, background: 4 }));
}
