use clipboard_manager::content::{ClipboardContent, ClipboardItem};
use clipboard_manager::retention::plan_eviction;

fn item(id: u128, ts: i64, pinned: bool) -> ClipboardItem {
    ClipboardItem { id, content: ClipboardContent::Text(format!("item {}", id)), timestamp: ts, pinned }
}

#[test]
fn keeps_the_most_recent_unpinned_items() {
    // history most recent first: 5, 4 (pinned), 3, 2, 1
    let items = vec![
        item(5, 50, false),
        item(4, 40, true),
        item(3, 30, false),
        item(2, 20, false),
        item(1, 10, false),
    ];
    let plan = plan_eviction(&items, 2);
    assert_eq!(plan, vec![2, 1]);
}

#[test]
fn pinned_items_are_never_planned() {
    let items = vec![item(3, 30, true), item(2, 20, true), item(1, 10, false)];
    let plan = plan_eviction(&items, 0);
    assert_eq!(plan, vec![1]);
}

#[test]
fn within_the_cap_nothing_is_planned() {
    let items = vec![item(2, 20, false), item(1, 10, false)];
    assert!(plan_eviction(&items, 2).is_empty());
    assert!(plan_eviction(&items, 5).is_empty());
    assert!(plan_eviction(&Vec::new(), 0).is_empty());
}
