use vstd::prelude::*;

use crate::text::{contains_chars, lower_of, lowercase, spec_contains};

verus! {

/// Dimensions and pixel layout of a captured image.
#[derive(Debug, Clone, Copy, PartialEq, Eq, Structural)]
pub struct ImageMetadata {
    pub width: u64,
    pub height: u64,
    pub bytes_per_pixel: u64,
}

/// A clipboard payload: either text or raw image data with its metadata.
#[derive(Debug)]
pub enum ClipboardContent {
    Text(String),
    Image(Vec<u8>, ImageMetadata),
}

/// Mathematical model of a `ClipboardContent`.
#[verifier::ext_equal]
pub enum ContentView {
    Text(Seq<char>),
    Image(Seq<u8>, ImageMetadata),
}

impl View for ClipboardContent {
    type V = ContentView;

    open spec fn view(&self) -> ContentView {
        match self {
            ClipboardContent::Text(s) => ContentView::Text(s@),
            ClipboardContent::Image(d, m) => ContentView::Image(d@, *m),
        }
    }
}

impl Clone for ClipboardContent {
    /// Cloning preserves the payload exactly.
    fn clone(&self) -> (r: Self)
        ensures
            r@ == self@,
    {
        match self {
            ClipboardContent::Text(s) => ClipboardContent::Text(s.clone()),
            ClipboardContent::Image(d, m) => {
                let dc: Vec<u8> = d.clone();
                assert(dc@ =~= d@);
                ClipboardContent::Image(dc, *m)
            },
        }
    }
}

impl PartialEq for ClipboardContent {
    /// Structural equality: texts equal iff their strings are equal; images
    /// equal iff metadata and raw bytes all match; cross-variant is unequal.
    fn eq(&self, other: &Self) -> (r: bool) {
        match (self, other) {
            (ClipboardContent::Text(a), ClipboardContent::Text(b)) => a.eq(b),
            (ClipboardContent::Image(ad, am), ClipboardContent::Image(bd, bm)) => {
                let meta_eq: bool = am.width == bm.width && am.height == bm.height
                    && am.bytes_per_pixel == bm.bytes_per_pixel;
                let data_eq: bool = ad == bd;
                proof {
                    if data_eq {
                        assert(ad@ =~= bd@);
                    } else {
                        assert(ad@ != bd@);
                    }
                }
                meta_eq && data_eq
            },
            _ => false,
        }
    }
}

impl Eq for ClipboardContent {}

impl vstd::std_specs::cmp::PartialEqSpecImpl for ClipboardContent {
    open spec fn obeys_eq_spec() -> bool {
        true
    }

    open spec fn eq_spec(&self, other: &Self) -> bool {
        self@ == other@
    }
}

/// One captured clipboard snapshot. Identity is `id`; `content` and
/// `timestamp` never change after creation; `pinned` is the only mutable
/// field.
#[derive(Debug)]
pub struct ClipboardItem {
    /// Unique identifier, generated at creation.
    pub id: u128,
    /// The captured payload.
    pub content: ClipboardContent,
    /// Capture time, in milliseconds since the UTC epoch.
    pub timestamp: i64,
    /// Whether the item is excluded from bulk eviction.
    pub pinned: bool,
}

/// Mathematical model of a `ClipboardItem`.
#[verifier::ext_equal]
pub struct ItemView {
    pub id: u128,
    pub content: ContentView,
    pub timestamp: i64,
    pub pinned: bool,
}

impl View for ClipboardItem {
    type V = ItemView;

    open spec fn view(&self) -> ItemView {
        ItemView { id: self.id, content: self.content@, timestamp: self.timestamp, pinned: self.pinned }
    }
}

impl Clone for ClipboardItem {
    /// Cloning preserves all fields exactly.
    fn clone(&self) -> (r: Self)
        ensures
            r@ == self@,
    {
        ClipboardItem {
            id: self.id,
            content: self.content.clone(),
            timestamp: self.timestamp,
            pinned: self.pinned,
        }
    }
}

/// Relies on uuid::Uuid::new_v4 and Uuid::as_u128: a freshly generated
/// random 128-bit identifier. The result depends on randomness, so nothing
/// is promised of it.
#[verifier::external_body]
pub fn fresh_id() -> u128 {
    uuid::Uuid::new_v4().as_u128()
}

/// Relies on chrono::Utc::now and DateTime::timestamp_millis: the current
/// UTC time in milliseconds. The result depends on the clock, so nothing is
/// promised of it.
#[verifier::external_body]
pub fn now_millis() -> i64 {
    chrono::Utc::now().timestamp_millis()
}

/// What `matches_search` returns: an empty query matches everything; a text
/// payload matches iff the case-folded query occurs in the case-folded text;
/// an image payload matches no non-empty query.
pub open spec fn spec_matches_search(content: ContentView, query: Seq<char>) -> bool {
    query.len() == 0 || match content {
        ContentView::Text(t) => spec_contains(lower_of(t), lower_of(query)),
        ContentView::Image(_, _) => false,
    }
}

impl ClipboardItem {
    /// Builds a fresh item around the given content: new identifier, current
    /// timestamp, not pinned.
    pub fn new(content: ClipboardContent) -> (r: Self)
        ensures
            r@.content == content@,
            r@.pinned == false,
    {
        ClipboardItem { id: fresh_id(), content, timestamp: now_millis(), pinned: false }
    }

    /// Case-insensitive substring search over text payloads.
    pub fn matches_search(&self, query: &str) -> (r: bool)
        ensures
            r == spec_matches_search(self@.content, query@),
    {
        if query.is_empty() {
            return true;
        }
        match &self.content {
            ClipboardContent::Text(t) => {
                let lt = lowercase(t.as_str());
                let lq = lowercase(query);
                contains_chars(lt.as_str(), lq.as_str())
            },
            ClipboardContent::Image(_, _) => false,
        }
    }
}

} // verus!
