use yabai_id::app::{
    button_slots, spaces_width, view_width, AppDelegate, AppState, ButtonSlot, MenuAction,
};
use yabai_id::skylight::{c_buffer_to_string, c_string_bytes, spaces_from_displays, DisplayRecord, SLSpace};

fn sl(id64: u64, display_index: usize, is_active: bool) -> SLSpace {
    SLSpace { id64, display_index, is_current: is_active, is_active }
}

#[test]
fn width_of_empty_row_is_one_button() {
    assert_eq!(spaces_width(&[], true), 29);
    assert_eq!(spaces_width(&[], false), 29);
}

#[test]
fn width_counts_buttons_and_dividers() {
    let spaces = [sl(1, 0, true), sl(2, 0, false), sl(3, 1, false)];
    assert_eq!(spaces_width(&spaces, true), 3 * 29 + 8);
    assert_eq!(spaces_width(&spaces, false), 3 * 29);
}

#[test]
fn slots_place_buttons_and_dividers() {
    let spaces = [sl(1, 0, false), sl(2, 0, true), sl(3, 1, false), sl(4, 2, false)];
    let slots = button_slots(&spaces, true);
    assert_eq!(
        slots,
        vec![
            ButtonSlot { x: 0, separator_x: None, label: 1, is_active: false },
            ButtonSlot { x: 29, separator_x: None, label: 2, is_active: true },
            ButtonSlot { x: 66, separator_x: Some(58), label: 3, is_active: false },
            ButtonSlot { x: 103, separator_x: Some(95), label: 4, is_active: false },
        ]
    );
    let hidden = button_slots(&spaces, false);
    assert_eq!(hidden[2], ButtonSlot { x: 58, separator_x: None, label: 3, is_active: false });
    assert_eq!(hidden[3].x, 87);
}

#[test]
fn label_text_is_number() {
    let slot = ButtonSlot { x: 0, separator_x: None, label: 12, is_active: false };
    assert_eq!(slot.label_text(), "12");
}

#[test]
fn app_state_starts_empty_with_dividers() {
    let s = AppState::new();
    assert!(s.spaces.is_empty());
    assert!(s.show_display_separator);
    assert_eq!(s.content_width(), 29);
    assert_eq!(view_width(Some(&s)), 29);
    assert_eq!(view_width(None), 29);
}

#[test]
fn toggle_twice_restores() {
    let mut s = AppState::new();
    s.spaces = vec![sl(1, 0, true), sl(2, 1, false)];
    s.toggle_separator();
    assert!(!s.show_display_separator);
    assert_eq!(s.content_width(), 58);
    s.toggle_separator();
    assert!(s.show_display_separator);
    assert_eq!(s.content_width(), 66);
}

#[test]
fn click_focuses_shown_number() {
    let mut s = AppState::new();
    s.spaces = vec![sl(1, 0, true), sl(2, 1, false)];
    assert_eq!(s.focus_target(0), Some(1));
    assert_eq!(s.focus_target(1), Some(2));
    assert_eq!(s.focus_target(2), None);
    let slots = s.button_slots();
    assert_eq!(slots[1].label as i64, s.focus_target(1).unwrap());
}

#[test]
fn refresh_replaces_spaces_and_keeps_dividers() {
    let mut d = AppDelegate::new();
    let u = d.do_refresh(vec![sl(5, 0, false), sl(6, 1, true)]);
    assert_eq!(u.width, 66);
    assert_eq!(d.state.spaces, vec![sl(5, 0, false), sl(6, 1, true)]);
    assert!(d.state.show_display_separator);
    assert_eq!(u.menu[0].title, "Hide Display Separators");
    assert_eq!(d.update_view_size(), 66);
}

#[test]
fn toggle_updates_width_and_menu() {
    let mut d = AppDelegate::new();
    d.do_refresh(vec![sl(5, 0, false), sl(6, 1, true)]);
    let u = d.toggle_separator();
    assert_eq!(u.width, 58);
    assert_eq!(u.menu[0].title, "Show Display Separators");
    assert!(!d.state.show_display_separator);
}

#[test]
fn menu_lists_items_in_order() {
    let d = AppDelegate::new();
    let menu = d.rebuild_menu();
    let actions: Vec<MenuAction> = menu.iter().map(|m| m.action).collect();
    assert_eq!(
        actions,
        vec![MenuAction::ToggleSeparator, MenuAction::Divider, MenuAction::Refresh, MenuAction::Quit]
    );
    assert_eq!(menu[0].title, "Hide Display Separators");
    assert_eq!(menu[0].key_equivalent, "");
    assert_eq!(menu[2].title, "Refresh");
    assert_eq!(menu[2].key_equivalent, "r");
    assert_eq!(menu[3].title, "Quit yabai-id");
    assert_eq!(menu[3].key_equivalent, "q");
}

fn display(id: Option<&str>, current: Option<u64>, spaces: Option<Vec<Option<u64>>>) -> DisplayRecord {
    DisplayRecord { identifier: id.map(|s| s.to_string()), current_space: current, spaces }
}

#[test]
fn spaces_follow_displays_and_active_display() {
    let displays = vec![
        display(Some("A"), Some(11), Some(vec![Some(10), Some(11)])),
        display(Some("B"), Some(20), Some(vec![Some(20), Some(21)])),
    ];
    let r = spaces_from_displays(&Some("B".to_string()), &displays);
    assert_eq!(
        r,
        vec![
            SLSpace { id64: 10, display_index: 0, is_current: false, is_active: false },
            SLSpace { id64: 11, display_index: 0, is_current: true, is_active: false },
            SLSpace { id64: 20, display_index: 1, is_current: true, is_active: true },
            SLSpace { id64: 21, display_index: 1, is_current: false, is_active: false },
        ]
    );
}

#[test]
fn unknown_active_display_means_first() {
    let displays = vec![
        display(Some("A"), Some(11), Some(vec![Some(11)])),
        display(Some("B"), Some(20), Some(vec![Some(20)])),
    ];
    let r = spaces_from_displays(&None, &displays);
    assert!(r[0].is_active);
    assert!(r[1].is_current && !r[1].is_active);
}

#[test]
fn display_without_identifier_is_not_active() {
    let displays = vec![display(None, Some(3), Some(vec![Some(3)]))];
    let r = spaces_from_displays(&Some("A".to_string()), &displays);
    assert_eq!(r, vec![SLSpace { id64: 3, display_index: 0, is_current: true, is_active: false }]);
}

#[test]
fn missing_space_list_is_skipped_and_unreadable_id_is_zero() {
    let displays = vec![
        display(Some("A"), Some(1), None),
        display(Some("B"), Some(0), Some(vec![None, Some(7)])),
        display(Some("C"), None, Some(vec![Some(9)])),
    ];
    let r = spaces_from_displays(&Some("B".to_string()), &displays);
    assert_eq!(
        r,
        vec![
            SLSpace { id64: 0, display_index: 1, is_current: true, is_active: true },
            SLSpace { id64: 7, display_index: 1, is_current: false, is_active: false },
            SLSpace { id64: 9, display_index: 2, is_current: false, is_active: false },
        ]
    );
}

#[test]
fn c_buffer_stops_at_first_nul() {
    let mut buf = vec![0u8; 16];
    buf[..4].copy_from_slice(b"UUID");
    buf[6] = b'x';
    assert_eq!(c_buffer_to_string(&buf), "UUID");
    assert_eq!(c_buffer_to_string(b"abc"), "abc");
    assert_eq!(c_buffer_to_string(&[0, b'a']), "");
    assert_eq!(c_buffer_to_string(&[0xFF, 0]), "\u{FFFD}");
}

#[test]
fn c_string_bytes_appends_nul() {
    assert_eq!(c_string_bytes("Spaces"), b"Spaces\0".to_vec());
    assert_eq!(c_string_bytes(""), vec![0]);
}

#[test]
fn c_string_round_trips_through_buffer() {
    let text = "Display Identifier é";
    let mut buf = c_string_bytes(text);
    buf.resize(256, 0xAB);
    assert_eq!(c_buffer_to_string(&buf), text);
}
