use pinshot::geometry::{can_centre, resize_anchor};
use pinshot::tray::{tray_action, TrayAction};

#[test]
fn resize_keeps_top_left_without_center() {
    assert_eq!(resize_anchor(Some((10, 20)), Some((100, 50)), (300, 300), false), Some((10, 20)));
    assert_eq!(resize_anchor(None, Some((100, 50)), (300, 300), false), None);
}

#[test]
fn resize_keeps_centre_with_center() {
    // old centre (60, 45); new half sizes (150, 100)
    assert_eq!(resize_anchor(Some((10, 20)), Some((100, 50)), (300, 200), true), Some((-90, -55)));
    // odd sizes halve toward zero
    assert_eq!(resize_anchor(Some((0, 0)), Some((101, 51)), (31, 11), true), Some((35, 20)));
    // a negative new size halves toward zero too
    assert_eq!(resize_anchor(Some((0, 0)), Some((10, 10)), (-3, -5), true), Some((6, 7)));
}

#[test]
fn resize_centre_needs_both_old_values() {
    assert_eq!(resize_anchor(Some((10, 20)), None, (300, 200), true), None);
    assert_eq!(resize_anchor(None, Some((100, 50)), (300, 200), true), None);
}

#[test]
fn tray_entries_map_to_actions() {
    assert_eq!(tray_action("new_pin"), Some(TrayAction::NewPin));
    assert_eq!(tray_action("show_hide"), Some(TrayAction::ShowHide));
    assert_eq!(tray_action("close_all"), Some(TrayAction::CloseAll));
    assert_eq!(tray_action("quit"), Some(TrayAction::Quit));
    assert_eq!(tray_action("Quit"), None);
    assert_eq!(tray_action(""), None);
    for a in [TrayAction::NewPin, TrayAction::ShowHide, TrayAction::CloseAll, TrayAction::Quit] {
        assert_eq!(tray_action(a.id()), Some(a));
    }
}

#[test]
fn centring_must_stay_in_range() {
    assert!(can_centre((10, 20), (100, 50), (300, 200)));
    assert!(!can_centre((i32::MAX, 0), (100, 50), (0, 0)));
    assert!(!can_centre((i32::MIN, 0), (0, 0), (10, 0)));
    assert!(can_centre((i32::MIN, 0), (0, 0), (-10, 0)));
    // a width beyond i32 wraps negative, as the cast does
    assert!(can_centre((0, 0), (u32::MAX, 0), (0, 0)));
}
