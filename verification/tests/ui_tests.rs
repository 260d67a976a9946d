use clipboard_manager::config::{Config, Theme};
use clipboard_manager::content::{ClipboardContent, ClipboardItem, ImageMetadata};
use clipboard_manager::error::ClipboardError;
use clipboard_manager::ui::{filter_items, find_by_id, with_pin_toggled, State};

fn text_item(id: u128, ts: i64, text: &str) -> ClipboardItem {
    ClipboardItem {
        id,
        content: ClipboardContent::Text(String::from(text)),
        timestamp: ts,
        pinned: false,
    }
}

#[test]
fn navigation_wraps_both_ways() {
    let mut s = State::default();
    assert_eq!(s.selected_index, 0);
    s.navigate_up(3);
    assert_eq!(s.selected_index, 2);
    s.navigate_down(3);
    assert_eq!(s.selected_index, 0);
    s.navigate_down(3);
    assert_eq!(s.selected_index, 1);
    s.navigate_up(3);
    assert_eq!(s.selected_index, 0);
}

#[test]
fn navigation_with_no_rows_stays_put() {
    let mut s = State::default();
    s.navigate_up(0);
    s.navigate_down(0);
    assert_eq!(s.selected_index, 0);
}

#[test]
fn filter_keeps_matching_items_in_order() {
    let items = vec![
        text_item(1, 1, "Grocery list"),
        text_item(2, 2, "meeting notes"),
        text_item(3, 3, "grocery receipt"),
    ];
    let hits = filter_items(&items, "GROCERY");
    let ids: Vec<u128> = hits.iter().map(|it| it.id).collect();
    assert_eq!(ids, vec![1, 3]);
    let all = filter_items(&items, "");
    assert_eq!(all.len(), 3);
}

#[test]
fn filter_drops_images_for_nonempty_queries() {
    let items = vec![ClipboardItem {
        id: 4,
        content: ClipboardContent::Image(
            vec![1],
            ImageMetadata { width: 1, height: 1, bytes_per_pixel: 1 },
        ),
        timestamp: 4,
        pinned: false,
    }];
    assert!(filter_items(&items, "anything").is_empty());
    assert_eq!(filter_items(&items, "").len(), 1);
}

#[test]
fn find_by_id_finds_or_says_none() {
    let items = vec![text_item(1, 1, "a"), text_item(2, 2, "b")];
    assert_eq!(find_by_id(&items, 2).expect("found").id, 2);
    assert!(find_by_id(&items, 3).is_none());
}

#[test]
fn pin_toggle_flips_only_the_flag() {
    let item = text_item(8, 80, "pin me");
    let toggled = with_pin_toggled(&item);
    assert_eq!(toggled.id, 8);
    assert_eq!(toggled.timestamp, 80);
    assert!(toggled.pinned);
    assert!(toggled.content == item.content);
    let back = with_pin_toggled(&toggled);
    assert!(!back.pinned);
}

#[test]
fn config_default_values() {
    let c = Config::default();
    assert_eq!(c.max_history_size, 100);
    assert_eq!(c.retention_days, 30);
    assert_eq!(c.check_interval_ms, 500);
    assert_eq!(c.theme, Theme::System);
    assert!(c.always_on_top);
    assert_eq!(c.data_dir, "");
}

#[test]
fn config_with_data_dir_replaces_only_the_path() {
    let c = Config::default().with_data_dir(String::from("/tmp/history"));
    assert_eq!(c.data_dir, "/tmp/history");
    assert_eq!(c.max_history_size, 100);
    assert_eq!(c.theme, Theme::System);
}

#[test]
fn error_message_carries_the_detail() {
    let e = ClipboardError::Storage(String::from("disk on fire"));
    assert_eq!(e.message(), "disk on fire");
    assert!(matches!(e, ClipboardError::Storage(_)));
    let u = ClipboardError::Unexpected(String::from("odd"));
    assert_eq!(u.message(), "odd");
}
