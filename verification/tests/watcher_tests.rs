use clipboard_manager::content::{ClipboardContent, ImageMetadata};
use clipboard_manager::watcher::ClipboardWatcher;

fn text(s: &str) -> ClipboardContent {
    ClipboardContent::Text(String::from(s))
}

#[test]
fn repeated_content_emits_once() {
    // readings "x", "x", "y": exactly two events, for "x" and "y"
    let mut w = ClipboardWatcher::new();
    let e1 = w.observe(Some(text("x")));
    let e2 = w.observe(Some(text("x")));
    let e3 = w.observe(Some(text("y")));
    let item1 = e1.expect("first x emits");
    assert!(e2.is_none());
    let item3 = e3.expect("y emits");
    assert!(item1.content == text("x"));
    assert!(item3.content == text("y"));
    assert!(!item1.pinned);
    assert!(!item3.pinned);
}

#[test]
fn empty_clipboard_emits_nothing_and_keeps_the_cache() {
    let mut w = ClipboardWatcher::new();
    assert!(w.observe(None).is_none());
    assert!(w.observe(Some(text("a"))).is_some());
    assert!(w.observe(None).is_none());
    // the cache survived the empty poll, so "a" is still a duplicate
    assert!(w.observe(Some(text("a"))).is_none());
}

#[test]
fn first_content_always_emits() {
    let mut w = ClipboardWatcher::new();
    assert!(w.observe(Some(text(""))).is_some());
}

#[test]
fn alternating_content_emits_each_change() {
    let mut w = ClipboardWatcher::new();
    assert!(w.observe(Some(text("a"))).is_some());
    assert!(w.observe(Some(text("b"))).is_some());
    assert!(w.observe(Some(text("a"))).is_some());
    assert!(w.observe(Some(text("a"))).is_none());
}

#[test]
fn identical_images_are_deduplicated() {
    let meta = ImageMetadata { width: 2, height: 2, bytes_per_pixel: 4 };
    let img = || ClipboardContent::Image(vec![1, 2, 3, 4], meta);
    let other = ClipboardContent::Image(vec![1, 2, 3, 5], meta);
    let mut w = ClipboardWatcher::new();
    assert!(w.observe(Some(img())).is_some());
    assert!(w.observe(Some(img())).is_none());
    assert!(w.observe(Some(other)).is_some());
}

#[test]
fn start_is_idempotent_and_stop_resets() {
    let mut w = ClipboardWatcher::new();
    assert!(w.start(), "first start spawns the loop");
    assert!(!w.start(), "second start is a no-op");
    w.stop();
    assert!(w.start(), "after stop a new loop is spawned");
}

#[test]
fn default_watcher_behaves_like_new() {
    let mut w = ClipboardWatcher::default();
    assert!(w.start());
    assert!(w.observe(Some(text("z"))).is_some());
}
