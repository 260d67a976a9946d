use clipboard_manager::codec::{decode_item, encode_item, id_to_key};
use clipboard_manager::content::{ClipboardContent, ClipboardItem, ImageMetadata};

fn text_item(id: u128, ts: i64, pinned: bool, text: &str) -> ClipboardItem {
    ClipboardItem { id, content: ClipboardContent::Text(String::from(text)), timestamp: ts, pinned }
}

#[test]
fn key_is_little_endian_id() {
    let key = id_to_key(0x0102_0304);
    assert_eq!(key.len(), 16);
    assert_eq!(key[0], 0x04);
    assert_eq!(key[1], 0x03);
    assert_eq!(key[2], 0x02);
    assert_eq!(key[3], 0x01);
    assert_eq!(key[4], 0);
}

#[test]
fn text_record_round_trips() {
    let item = text_item(77, 123_456_789, true, "hello clipboard");
    let bytes = encode_item(&item);
    let back = decode_item(&bytes).expect("round trip");
    assert_eq!(back.id, item.id);
    assert_eq!(back.timestamp, item.timestamp);
    assert_eq!(back.pinned, item.pinned);
    assert!(back.content == item.content);
}

#[test]
fn non_ascii_text_round_trips() {
    let item = text_item(1, -5, false, "héllo ✓ まど");
    let bytes = encode_item(&item);
    let back = decode_item(&bytes).expect("round trip");
    assert_eq!(back.timestamp, -5);
    assert!(back.content == item.content);
}

#[test]
fn image_record_round_trips() {
    let item = ClipboardItem {
        id: u128::MAX,
        content: ClipboardContent::Image(
            vec![0, 255, 7, 9],
            ImageMetadata { width: 2, height: 1, bytes_per_pixel: 2 },
        ),
        timestamp: i64::MIN,
        pinned: false,
    };
    let bytes = encode_item(&item);
    let back = decode_item(&bytes).expect("round trip");
    assert_eq!(back.id, item.id);
    assert_eq!(back.timestamp, item.timestamp);
    assert!(back.content == item.content);
}

#[test]
fn pin_flag_sits_in_the_record() {
    let pinned = encode_item(&text_item(1, 0, true, "a"));
    let unpinned = encode_item(&text_item(1, 0, false, "a"));
    assert_eq!(pinned[24], 1);
    assert_eq!(unpinned[24], 0);
}

#[test]
fn garbage_does_not_decode() {
    assert!(decode_item(&vec![]).is_none());
    assert!(decode_item(&vec![1, 2, 3]).is_none());
    assert!(decode_item(&vec![0; 25]).is_none());
}

#[test]
fn truncated_record_does_not_decode() {
    let bytes = encode_item(&text_item(9, 9, false, "truncate me"));
    let mut cut = bytes.clone();
    cut.pop();
    assert!(decode_item(&cut).is_none());
}

#[test]
fn tampered_flags_do_not_decode() {
    let bytes = encode_item(&text_item(9, 9, false, "x"));
    let mut bad_pin = bytes.clone();
    bad_pin[24] = 2;
    assert!(decode_item(&bad_pin).is_none());
    let mut bad_tag = bytes.clone();
    bad_tag[25] = 9;
    assert!(decode_item(&bad_tag).is_none());
}

#[test]
fn invalid_utf8_payload_does_not_decode() {
    let bytes = encode_item(&text_item(9, 9, false, "ab"));
    let mut bad = bytes.clone();
    let n = bad.len();
    bad[n - 1] = 0xFF;
    assert!(decode_item(&bad).is_none());
}
