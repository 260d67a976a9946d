use vstd::prelude::*;

use vstd::bytes::{
    lemma_auto_spec_u128_to_from_le_bytes, lemma_auto_spec_u64_to_from_le_bytes,
    spec_u128_to_le_bytes, spec_u64_to_le_bytes, u128_from_le_bytes, u128_to_le_bytes,
    u64_from_le_bytes, u64_to_le_bytes,
};
use vstd::slice::{slice_subrange, slice_to_vec};
use vstd::utf8::{encode_utf8, encode_utf8_decode_utf8, encode_utf8_valid_utf8, valid_utf8};

use crate::content::{ClipboardContent, ClipboardItem, ContentView, ImageMetadata, ItemView};

verus! {

/// Record tag for a text payload.
pub const TAG_TEXT: u8 = 0;

/// Record tag for an image payload.
pub const TAG_IMAGE: u8 = 1;

/// The fixed-width storage key of an item: its identifier in little-endian
/// bytes.
pub open spec fn spec_key_of(id: u128) -> Seq<u8> {
    spec_u128_to_le_bytes(id)
}

/// Serializes an item identifier into its fixed-width storage key.
pub fn id_to_key(id: u128) -> (r: Vec<u8>)
    ensures
        r@ == spec_key_of(id),
{
    u128_to_le_bytes(id)
}

/// The timestamp's two's-complement bit pattern, as stored in a record.
pub open spec fn ts_bits(t: i64) -> u64 {
    t as u64
}

proof fn lemma_ts_bits_roundtrip(t: i64)
    ensures
        (ts_bits(t) as i64) == t,
{
    assert(((t as u64) as i64) == t) by (bit_vector);
}

/// The encoded payload is short enough for its length prefix.
pub open spec fn content_len_ok(c: ContentView) -> bool {
    match c {
        ContentView::Text(s) => encode_utf8(s).len() <= u64::MAX,
        ContentView::Image(d, _) => d.len() <= u64::MAX,
    }
}

/// Serialized form of a payload: a one-byte tag, then for text a length
/// prefix and the UTF-8 bytes, for images the three metadata fields, a
/// length prefix and the raw bytes, every integer little-endian.
pub open spec fn spec_encode_content(c: ContentView) -> Seq<u8> {
    match c {
        ContentView::Text(s) => seq![TAG_TEXT] + spec_u64_to_le_bytes(
            encode_utf8(s).len() as u64,
        ) + encode_utf8(s),
        ContentView::Image(d, m) => seq![TAG_IMAGE] + spec_u64_to_le_bytes(m.width)
            + spec_u64_to_le_bytes(m.height) + spec_u64_to_le_bytes(m.bytes_per_pixel)
            + spec_u64_to_le_bytes(d.len() as u64) + d,
    }
}

/// Serialized form of a full record: identifier, timestamp bits, pin flag,
/// then the payload.
pub open spec fn spec_encode_item(m: ItemView) -> Seq<u8> {
    spec_u128_to_le_bytes(m.id) + spec_u64_to_le_bytes(ts_bits(m.timestamp)) + seq![
        if m.pinned {
            1u8
        } else {
            0u8
        },
    ] + spec_encode_content(m.content)
}

/// The length of an encoded record, by payload kind.
pub proof fn lemma_encode_len(m: ItemView)
    ensures
        spec_encode_item(m).len() == match m.content {
            ContentView::Text(s) => 34 + encode_utf8(s).len(),
            ContentView::Image(d, _) => 58 + d.len(),
        },
        spec_encode_item(m)[24] == (if m.pinned {
            1u8
        } else {
            0u8
        }),
        spec_encode_item(m)[25] == (match m.content {
            ContentView::Text(_) => TAG_TEXT,
            ContentView::Image(_, _) => TAG_IMAGE,
        }),
{
    lemma_auto_spec_u128_to_from_le_bytes();
    lemma_auto_spec_u64_to_from_le_bytes();
}

/// Serializes an item into its stored record bytes.
pub fn encode_item(item: &ClipboardItem) -> (r: Vec<u8>)
    ensures
        r@ == spec_encode_item(item@),
        content_len_ok(item@.content),
{
    let ghost goal: Seq<u8> = spec_encode_item(item@);
    let mut out: Vec<u8> = u128_to_le_bytes(item.id);
    let mut ts: Vec<u8> = u64_to_le_bytes(#[verifier::truncate] (item.timestamp as u64));
    out.append(&mut ts);
    out.push(if item.pinned { 1 } else { 0 });
    match &item.content {
        ClipboardContent::Text(s) => {
            out.push(TAG_TEXT);
            let mut payload: Vec<u8> = s.as_str().as_bytes_vec();
            let mut lenb: Vec<u8> = u64_to_le_bytes(payload.len() as u64);
            out.append(&mut lenb);
            out.append(&mut payload);
            proof {
                assert(out@ =~= goal);
            }
        },
        ClipboardContent::Image(d, meta) => {
            out.push(TAG_IMAGE);
            let mut w: Vec<u8> = u64_to_le_bytes(meta.width);
            out.append(&mut w);
            let mut h: Vec<u8> = u64_to_le_bytes(meta.height);
            out.append(&mut h);
            let mut bpp: Vec<u8> = u64_to_le_bytes(meta.bytes_per_pixel);
            out.append(&mut bpp);
            let mut lenb: Vec<u8> = u64_to_le_bytes(d.len() as u64);
            out.append(&mut lenb);
            let mut data: Vec<u8> = d.clone();
            proof {
                assert(data@ =~= d@);
            }
            out.append(&mut data);
            proof {
                assert(out@ =~= goal);
            }
        },
    }
    out
}

/// Where each piece of an encoded record stands in the whole.
proof fn lemma_encode_parts(m: ItemView)
    ensures
        ({
            let e = spec_encode_item(m);
            &&& e.subrange(0, 16) == spec_u128_to_le_bytes(m.id)
            &&& e.subrange(16, 24) == spec_u64_to_le_bytes(ts_bits(m.timestamp))
            &&& match m.content {
                ContentView::Text(s) => {
                    &&& e.subrange(26, 34) == spec_u64_to_le_bytes(encode_utf8(s).len() as u64)
                    &&& e.subrange(34, e.len() as int) == encode_utf8(s)
                },
                ContentView::Image(d, meta) => {
                    &&& e.subrange(26, 34) == spec_u64_to_le_bytes(meta.width)
                    &&& e.subrange(34, 42) == spec_u64_to_le_bytes(meta.height)
                    &&& e.subrange(42, 50) == spec_u64_to_le_bytes(meta.bytes_per_pixel)
                    &&& e.subrange(50, 58) == spec_u64_to_le_bytes(d.len() as u64)
                    &&& e.subrange(58, e.len() as int) == d
                },
            }
        }),
{
    lemma_auto_spec_u128_to_from_le_bytes();
    lemma_auto_spec_u64_to_from_le_bytes();
    let e = spec_encode_item(m);
    assert(e.subrange(0, 16) =~= spec_u128_to_le_bytes(m.id));
    assert(e.subrange(16, 24) =~= spec_u64_to_le_bytes(ts_bits(m.timestamp)));
    match m.content {
        ContentView::Text(s) => {
            assert(e.subrange(26, 34) =~= spec_u64_to_le_bytes(encode_utf8(s).len() as u64));
            assert(e.subrange(34, e.len() as int) =~= encode_utf8(s));
        },
        ContentView::Image(d, meta) => {
            assert(e.subrange(26, 34) =~= spec_u64_to_le_bytes(meta.width));
            assert(e.subrange(34, 42) =~= spec_u64_to_le_bytes(meta.height));
            assert(e.subrange(42, 50) =~= spec_u64_to_le_bytes(meta.bytes_per_pixel));
            assert(e.subrange(50, 58) =~= spec_u64_to_le_bytes(d.len() as u64));
            assert(e.subrange(58, e.len() as int) =~= d);
        },
    }
}

proof fn lemma_u64_bits_roundtrip(u: u64)
    ensures
        ts_bits(u as i64) == u,
{
    assert(((u as i64) as u64) == u) by (bit_vector);
}

/// Two records that serialize to the same bytes are the same record.
pub proof fn lemma_encode_injective(m1: ItemView, m2: ItemView)
    requires
        content_len_ok(m1.content),
        content_len_ok(m2.content),
        spec_encode_item(m1) == spec_encode_item(m2),
    ensures
        m1 == m2,
{
    lemma_auto_spec_u128_to_from_le_bytes();
    lemma_auto_spec_u64_to_from_le_bytes();
    lemma_encode_parts(m1);
    lemma_encode_parts(m2);
    lemma_encode_len(m1);
    lemma_encode_len(m2);
    assert(m1.id == m2.id);
    assert(ts_bits(m1.timestamp) == ts_bits(m2.timestamp));
    lemma_ts_bits_roundtrip(m1.timestamp);
    lemma_ts_bits_roundtrip(m2.timestamp);
    assert(m1.timestamp == m2.timestamp);
    assert(m1.pinned == m2.pinned);
    let e = spec_encode_item(m1);
    match (m1.content, m2.content) {
        (ContentView::Text(s1), ContentView::Text(s2)) => {
            assert(34 + encode_utf8(s1).len() == e.len() == 34 + encode_utf8(s2).len());
            assert(encode_utf8(s1) == e.subrange(34, e.len() as int));
            assert(encode_utf8(s2) == e.subrange(34, e.len() as int));
            encode_utf8_decode_utf8(s1);
            encode_utf8_decode_utf8(s2);
            assert(s1 == s2);
            assert(m1 =~~= m2);
        },
        (ContentView::Image(d1, meta1), ContentView::Image(d2, meta2)) => {
            assert(meta1.width == meta2.width);
            assert(meta1.height == meta2.height);
            assert(meta1.bytes_per_pixel == meta2.bytes_per_pixel);
            assert(58 + d1.len() == e.len() == 58 + d2.len());
            assert(d1 == e.subrange(58, e.len() as int));
            assert(d2 == e.subrange(58, e.len() as int));
            assert(m1 =~~= m2);
        },
        (ContentView::Text(_), ContentView::Image(_, _)) => {
            assert(e[25] == TAG_TEXT && e[25] == TAG_IMAGE);
        },
        (ContentView::Image(_, _), ContentView::Text(_)) => {
            assert(e[25] == TAG_TEXT && e[25] == TAG_IMAGE);
        },
    }
}

/// The record, if any, that the given bytes are the serialization of.
#[verifier::opaque]
pub open spec fn spec_decode_item(b: Seq<u8>) -> Option<ItemView> {
    if exists|m: ItemView| content_len_ok(m.content) && spec_encode_item(m) == b {
        Some(choose|m: ItemView| content_len_ok(m.content) && spec_encode_item(m) == b)
    } else {
        None
    }
}

/// Decoding inverts encoding exactly.
pub proof fn lemma_codec_round_trip(m: ItemView)
    requires
        content_len_ok(m.content),
    ensures
        spec_decode_item(spec_encode_item(m)) == Some(m),
{
    reveal(spec_decode_item);
    let b = spec_encode_item(m);
    assert(content_len_ok(m.content) && spec_encode_item(m) == b);
    let m2 = choose|m2: ItemView| content_len_ok(m2.content) && spec_encode_item(m2) == b;
    lemma_encode_injective(m, m2);
}

/// Relies on String::from_utf8: it succeeds exactly on valid UTF-8 input
/// and returns the string holding those very bytes.
#[verifier::external_body]
fn utf8_to_string(bytes: Vec<u8>) -> (r: Option<String>)
    ensures
        r matches Some(s) ==> encode_utf8(s@) == bytes@,
        valid_utf8(bytes@) <==> r is Some,
{
    String::from_utf8(bytes).ok()
}

/// Deserializes a stored record. Returns `None` exactly when the bytes are
/// the serialization of no record.
pub fn decode_item(bytes: &Vec<u8>) -> (r: Option<ClipboardItem>)
    ensures
        r matches Some(item) ==> content_len_ok(item@.content) && spec_encode_item(item@)
            == bytes@,
        r is None ==> spec_decode_item(bytes@) is None,
        r matches Some(item) ==> spec_decode_item(bytes@) == Some(item@),
{
    proof {
        reveal(spec_decode_item);
        lemma_auto_spec_u128_to_from_le_bytes();
        lemma_auto_spec_u64_to_from_le_bytes();
    }
    let n = bytes.len();
    if n < 26 {
        proof {
            assert forall|m: ItemView| content_len_ok(m.content) implies spec_encode_item(m)
                != bytes@ by {
                lemma_encode_len(m);
            }
        }
        return None;
    }
    let id = u128_from_le_bytes(slice_subrange(bytes.as_slice(), 0, 16));
    let tsu = u64_from_le_bytes(slice_subrange(bytes.as_slice(), 16, 24));
    let ts: i64 = #[verifier::truncate] (tsu as i64);
    proof {
        lemma_u64_bits_roundtrip(tsu);
    }
    let pb: u8 = bytes[24];
    if pb > 1 {
        proof {
            assert forall|m: ItemView| content_len_ok(m.content) implies spec_encode_item(m)
                != bytes@ by {
                lemma_encode_len(m);
            }
        }
        return None;
    }
    let pinned: bool = pb == 1;
    let tag: u8 = bytes[25];
    if tag == TAG_TEXT {
        if n < 34 {
            proof {
                assert forall|m: ItemView| content_len_ok(m.content) implies spec_encode_item(m)
                    != bytes@ by {
                    lemma_encode_len(m);
                }
            }
            return None;
        }
        let len64 = u64_from_le_bytes(slice_subrange(bytes.as_slice(), 26, 34));
        if len64 != (n - 34) as u64 {
            proof {
                assert forall|m: ItemView| content_len_ok(m.content) implies spec_encode_item(m)
                    != bytes@ by {
                    lemma_encode_len(m);
                    if spec_encode_item(m) == bytes@ {
                        lemma_encode_parts(m);
                    }
                }
            }
            return None;
        }
        let payload = slice_to_vec(slice_subrange(bytes.as_slice(), 34, n));
        match utf8_to_string(payload) {
            Some(s) => {
                let item = ClipboardItem {
                    id,
                    content: ClipboardContent::Text(s),
                    timestamp: ts,
                    pinned,
                };
                proof {
                    assert(spec_encode_item(item@) =~= bytes@);
                    lemma_codec_round_trip(item@);
                }
                Some(item)
            },
            None => {
                proof {
                    assert forall|m: ItemView| content_len_ok(m.content) implies spec_encode_item(
                        m,
                    ) != bytes@ by {
                        lemma_encode_len(m);
                        if spec_encode_item(m) == bytes@ {
                            lemma_encode_parts(m);
                            match m.content {
                                ContentView::Text(s) => {
                                    encode_utf8_valid_utf8(s);
                                },
                                ContentView::Image(_, _) => {},
                            }
                        }
                    }
                }
                None
            },
        }
    } else if tag == TAG_IMAGE {
        if n < 58 {
            proof {
                assert forall|m: ItemView| content_len_ok(m.content) implies spec_encode_item(m)
                    != bytes@ by {
                    lemma_encode_len(m);
                }
            }
            return None;
        }
        let width = u64_from_le_bytes(slice_subrange(bytes.as_slice(), 26, 34));
        let height = u64_from_le_bytes(slice_subrange(bytes.as_slice(), 34, 42));
        let bytes_per_pixel = u64_from_le_bytes(slice_subrange(bytes.as_slice(), 42, 50));
        let dlen = u64_from_le_bytes(slice_subrange(bytes.as_slice(), 50, 58));
        if dlen != (n - 58) as u64 {
            proof {
                assert forall|m: ItemView| content_len_ok(m.content) implies spec_encode_item(m)
                    != bytes@ by {
                    lemma_encode_len(m);
                    if spec_encode_item(m) == bytes@ {
                        lemma_encode_parts(m);
                    }
                }
            }
            return None;
        }
        let data = slice_to_vec(slice_subrange(bytes.as_slice(), 58, n));
        let item = ClipboardItem {
            id,
            content: ClipboardContent::Image(data, ImageMetadata { width, height, bytes_per_pixel }),
            timestamp: ts,
            pinned,
        };
        proof {
            assert(spec_encode_item(item@) =~= bytes@);
            lemma_codec_round_trip(item@);
        }
        Some(item)
    } else {
        proof {
            assert forall|m: ItemView| content_len_ok(m.content) implies spec_encode_item(m)
                != bytes@ by {
                lemma_encode_len(m);
            }
        }
        None
    }
}

} // verus!
