use clipboard_manager::content::{ClipboardContent, ClipboardItem, ImageMetadata};
use clipboard_manager::error::ClipboardError;
use clipboard_manager::storage::SledStorage;

fn text_item(id: u128, ts: i64, pinned: bool, text: &str) -> ClipboardItem {
    ClipboardItem { id, content: ClipboardContent::Text(String::from(text)), timestamp: ts, pinned }
}

#[test]
fn add_then_get_returns_equal_item() {
    let mut store = SledStorage::new_temporary().unwrap();
    let item = text_item(42, 1000, false, "remember me");
    store.add_item(item.clone()).unwrap();
    let back = store.get_item(42).unwrap().expect("present");
    assert_eq!(back.id, item.id);
    assert_eq!(back.timestamp, item.timestamp);
    assert_eq!(back.pinned, item.pinned);
    assert!(back.content == item.content);
}

#[test]
fn add_then_get_image_item() {
    let mut store = SledStorage::new_temporary().unwrap();
    let item = ClipboardItem {
        id: 7,
        content: ClipboardContent::Image(
            vec![9, 8, 7, 6],
            ImageMetadata { width: 1, height: 1, bytes_per_pixel: 4 },
        ),
        timestamp: 5,
        pinned: true,
    };
    store.add_item(item.clone()).unwrap();
    let back = store.get_item(7).unwrap().expect("present");
    assert!(back.content == item.content);
    assert!(back.pinned);
}

#[test]
fn get_missing_id_returns_none() {
    let store = SledStorage::new_temporary().unwrap();
    assert!(store.get_item(1).unwrap().is_none());
}

#[test]
fn get_all_sorts_by_timestamp_descending() {
    let mut store = SledStorage::new_temporary().unwrap();
    store.add_item(text_item(1, 10, false, "old")).unwrap();
    store.add_item(text_item(2, 30, false, "new")).unwrap();
    store.add_item(text_item(3, 20, false, "mid")).unwrap();
    let all = store.get_all_items().unwrap();
    let ids: Vec<u128> = all.iter().map(|it| it.id).collect();
    assert_eq!(ids, vec![2, 3, 1]);
}

#[test]
fn get_all_breaks_timestamp_ties_by_id() {
    let mut store = SledStorage::new_temporary().unwrap();
    store.add_item(text_item(9, 10, false, "b")).unwrap();
    store.add_item(text_item(4, 10, false, "a")).unwrap();
    let all = store.get_all_items().unwrap();
    let ids: Vec<u128> = all.iter().map(|it| it.id).collect();
    assert_eq!(ids, vec![4, 9]);
}

#[test]
fn add_overwrites_record_with_same_id() {
    let mut store = SledStorage::new_temporary().unwrap();
    store.add_item(text_item(5, 1, false, "first")).unwrap();
    store.add_item(text_item(5, 2, true, "second")).unwrap();
    let back = store.get_item(5).unwrap().expect("present");
    assert_eq!(back.timestamp, 2);
    assert!(back.pinned);
    assert!(back.content == ClipboardContent::Text(String::from("second")));
    assert_eq!(store.get_all_items().unwrap().len(), 1);
}

#[test]
fn update_on_absent_id_acts_as_add() {
    let mut store = SledStorage::new_temporary().unwrap();
    store.update_item(text_item(11, 3, false, "fresh")).unwrap();
    let back = store.get_item(11).unwrap().expect("record appears");
    assert!(back.content == ClipboardContent::Text(String::from("fresh")));
    assert_eq!(store.get_all_items().unwrap().len(), 1);
}

#[test]
fn update_replaces_only_its_own_record() {
    let mut store = SledStorage::new_temporary().unwrap();
    store.add_item(text_item(1, 10, false, "keep")).unwrap();
    store.add_item(text_item(2, 20, false, "toggle")).unwrap();
    store.update_item(text_item(2, 20, true, "toggle")).unwrap();
    let other = store.get_item(1).unwrap().expect("untouched");
    assert!(!other.pinned);
    assert!(other.content == ClipboardContent::Text(String::from("keep")));
    // pin toggling must not alter sort position
    let ids: Vec<u128> = store.get_all_items().unwrap().iter().map(|it| it.id).collect();
    assert_eq!(ids, vec![2, 1]);
}

#[test]
fn remove_deletes_and_tolerates_missing_ids() {
    let mut store = SledStorage::new_temporary().unwrap();
    store.add_item(text_item(3, 1, false, "bye")).unwrap();
    store.remove_item(3).unwrap();
    assert!(store.get_item(3).unwrap().is_none());
    store.remove_item(3).unwrap();
    store.remove_item(999).unwrap();
}

#[test]
fn clear_non_pinned_scenario() {
    let mut store = SledStorage::new_temporary().unwrap();
    let a = text_item(1, 1, false, "a");
    let b = text_item(2, 2, true, "b");
    let c = text_item(3, 3, false, "c");
    store.add_item(a).unwrap();
    store.add_item(b).unwrap();
    store.add_item(c).unwrap();
    let ids: Vec<u128> = store.get_all_items().unwrap().iter().map(|it| it.id).collect();
    assert_eq!(ids, vec![3, 2, 1]);
    let removed = store.clear_non_pinned().unwrap();
    assert_eq!(removed, 2);
    let left: Vec<u128> = store.get_all_items().unwrap().iter().map(|it| it.id).collect();
    assert_eq!(left, vec![2]);
    assert!(store.get_item(1).unwrap().is_none());
}

#[test]
fn clear_non_pinned_on_empty_store_counts_zero() {
    let mut store = SledStorage::new_temporary().unwrap();
    assert_eq!(store.clear_non_pinned().unwrap(), 0);
    assert!(store.get_all_items().unwrap().is_empty());
}

#[test]
fn clear_non_pinned_with_all_pinned_counts_zero() {
    let mut store = SledStorage::new_temporary().unwrap();
    store.add_item(text_item(1, 1, true, "a")).unwrap();
    store.add_item(text_item(2, 2, true, "b")).unwrap();
    assert_eq!(store.clear_non_pinned().unwrap(), 0);
    assert_eq!(store.get_all_items().unwrap().len(), 2);
}

#[test]
fn opening_an_impossible_path_is_a_storage_error() {
    let err = SledStorage::new(&String::from("/dev/null/not-a-directory"))
        .err()
        .expect("open must fail");
    assert!(matches!(err, ClipboardError::Storage(_)));
}

#[test]
fn init_is_idempotent_and_flush_succeeds() {
    let mut store = SledStorage::new_temporary().unwrap();
    store.init().unwrap();
    store.init().unwrap();
    store.add_item(text_item(1, 1, false, "durable")).unwrap();
    store.flush().unwrap();
    assert_eq!(store.get_all_items().unwrap().len(), 1);
}
