use clipboard_manager::content::{ClipboardContent, ClipboardItem, ImageMetadata};
use clipboard_manager::text::sanitize_text;

fn meta(width: u64, height: u64, bytes_per_pixel: u64) -> ImageMetadata {
    ImageMetadata { width, height, bytes_per_pixel }
}

#[test]
fn text_contents_equal_iff_strings_equal() {
    let a = ClipboardContent::Text(String::from("hello"));
    let b = ClipboardContent::Text(String::from("hello"));
    let c = ClipboardContent::Text(String::from("world"));
    assert!(a == b);
    assert!(a != c);
}

#[test]
fn image_contents_equal_iff_all_fields_match() {
    let a = ClipboardContent::Image(vec![1, 2, 3], meta(2, 3, 4));
    let b = ClipboardContent::Image(vec![1, 2, 3], meta(2, 3, 4));
    let c = ClipboardContent::Image(vec![1, 2, 4], meta(2, 3, 4));
    let d = ClipboardContent::Image(vec![1, 2, 3], meta(2, 3, 5));
    assert!(a == b);
    assert!(a != c);
    assert!(a != d);
}

#[test]
fn cross_variant_contents_never_equal() {
    let a = ClipboardContent::Text(String::from("img"));
    let b = ClipboardContent::Image(vec![], meta(0, 0, 0));
    assert!(a != b);
    assert!(b != a);
}

#[test]
fn new_item_is_unpinned_and_keeps_content() {
    let item = ClipboardItem::new(ClipboardContent::Text(String::from("snippet")));
    assert!(!item.pinned);
    assert!(item.content == ClipboardContent::Text(String::from("snippet")));
}

#[test]
fn fresh_items_get_distinct_ids() {
    let a = ClipboardItem::new(ClipboardContent::Text(String::from("x")));
    let b = ClipboardItem::new(ClipboardContent::Text(String::from("x")));
    assert_ne!(a.id, b.id);
}

#[test]
fn empty_query_matches_everything() {
    let t = ClipboardItem::new(ClipboardContent::Text(String::from("abc")));
    let i = ClipboardItem::new(ClipboardContent::Image(vec![9], meta(1, 1, 4)));
    assert!(t.matches_search(""));
    assert!(i.matches_search(""));
}

#[test]
fn search_is_case_insensitive() {
    let item = ClipboardItem::new(ClipboardContent::Text(String::from("Hello World")));
    assert!(item.matches_search("hello"));
    assert!(item.matches_search("WORLD"));
    assert!(item.matches_search("o W"));
    assert!(!item.matches_search("mars"));
}

#[test]
fn images_match_no_nonempty_query() {
    let item = ClipboardItem::new(ClipboardContent::Image(vec![1, 2], meta(1, 1, 2)));
    assert!(!item.matches_search("1"));
}

#[test]
fn sanitize_trims_surrounding_whitespace() {
    assert_eq!(sanitize_text("  hi there \n", 20), "hi there");
    assert_eq!(sanitize_text("\t\n   \r", 10), "");
    assert_eq!(sanitize_text("plain", 10), "plain");
}

#[test]
fn sanitize_truncates_with_ellipsis() {
    assert_eq!(sanitize_text("abcdefgh", 6), "abc...");
    assert_eq!(sanitize_text("  abcdefgh  ", 6), "abc...");
    assert_eq!(sanitize_text("abcdef", 6), "abcdef");
}

#[test]
fn clone_preserves_item() {
    let item = ClipboardItem::new(ClipboardContent::Image(vec![5, 6, 7], meta(3, 1, 4)));
    let copy = item.clone();
    assert_eq!(copy.id, item.id);
    assert_eq!(copy.timestamp, item.timestamp);
    assert_eq!(copy.pinned, item.pinned);
    assert!(copy.content == item.content);
}
