use vstd::prelude::*;

use crate::content::{ClipboardContent, ClipboardItem, ContentView};

verus! {

/// The view of an optional clipboard reading.
pub open spec fn reading_view(o: Option<ClipboardContent>) -> Option<ContentView> {
    match o {
        Some(c) => Some(c@),
        None => None,
    }
}

/// One poll emits an event exactly when the clipboard holds content that
/// differs structurally from the last observed content; an empty clipboard
/// never emits.
pub open spec fn should_emit(last: Option<ContentView>, reading: Option<ContentView>) -> bool {
    match reading {
        Some(c) => last != Some(c),
        None => false,
    }
}

/// The last-observed cache after one poll: the reading when there is one,
/// the old cache otherwise.
pub open spec fn next_last(last: Option<ContentView>, reading: Option<ContentView>) -> Option<
    ContentView,
> {
    match reading {
        Some(c) => Some(c),
        None => last,
    }
}

/// The contents emitted when a sequence of poll readings is fed through
/// the deduplicating state machine, starting from the given cache.
pub open spec fn emitted_seq(last: Option<ContentView>, readings: Seq<Option<ContentView>>) -> Seq<
    ContentView,
>
    decreases readings.len(),
{
    if readings.len() == 0 {
        Seq::empty()
    } else {
        let head = readings[0];
        let rest = emitted_seq(next_last(last, head), readings.drop_first());
        if should_emit(last, head) {
            seq![head->Some_0] + rest
        } else {
            rest
        }
    }
}

/// Law: however the clipboard changes, the emitted event sequence holds no
/// two consecutive structurally equal contents; and when the cache already
/// holds some content, the first emission differs from it.
pub proof fn lemma_no_consecutive_duplicates(
    last: Option<ContentView>,
    readings: Seq<Option<ContentView>>,
)
    ensures
        ({
            let e = emitted_seq(last, readings);
            &&& forall|i: int| #![trigger e[i]] 0 <= i < e.len() - 1 ==> e[i] != e[i + 1]
            &&& (last is Some && e.len() > 0 ==> e[0] != last->Some_0)
        }),
    decreases readings.len(),
{
    if readings.len() > 0 {
        let head = readings[0];
        let last2 = next_last(last, head);
        lemma_no_consecutive_duplicates(last2, readings.drop_first());
        let rest = emitted_seq(last2, readings.drop_first());
        let e = emitted_seq(last, readings);
        if should_emit(last, head) {
            let c = head->Some_0;
            assert(e == seq![c] + rest);
            assert(e[0] == c);
            assert(last2 == Some(c));
            assert forall|i: int| #![trigger e[i]] 0 <= i < e.len() - 1 implies e[i] != e[i
                + 1] by {
                if i == 0 {
                    if rest.len() > 0 {
                        assert(e[1] == rest[0]);
                        assert(rest[0] != c);
                    }
                } else {
                    assert(e[i] == rest[i - 1]);
                    assert(e[i + 1] == rest[i]);
                }
            }
        } else {
            assert(last2 == last || (last matches Some(c2) && head == Some(c2)));
            assert(e == rest);
        }
    }
}

/// Clipboard change watcher: the dedup state machine of the poll loop.
///
/// It owns the run flag and the last observed content. The embedding
/// runtime drives it: it reads the clipboard on a timer, hands each
/// reading to `observe`, and sends whatever item comes back on the event
/// channel. `start` and `stop` switch the flag; `start` says whether a
/// loop must be spawned, so that two starts never spawn two loops.
pub struct ClipboardWatcher {
    running: bool,
    last_content: Option<ClipboardContent>,
}

impl ClipboardWatcher {
    /// Whether the poll loop should be running.
    pub closed spec fn spec_running(&self) -> bool {
        self.running
    }

    /// The last observed content, `None` before anything was observed.
    pub closed spec fn spec_last(&self) -> Option<ContentView> {
        reading_view(self.last_content)
    }

    /// A stopped watcher that has observed nothing.
    pub fn new() -> (r: Self)
        ensures
            !r.spec_running(),
            r.spec_last() is None,
    {
        ClipboardWatcher { running: false, last_content: None }
    }

    /// Whether the poll loop should currently be running.
    pub fn is_running(&self) -> (r: bool)
        ensures
            r == self.spec_running(),
    {
        self.running
    }

    /// Switches the watcher on. Returns whether a poll loop must be
    /// spawned: `false` when one is already running, so starting twice is
    /// a no-op, not an error.
    pub fn start(&mut self) -> (spawn: bool)
        ensures
            final(self).spec_running(),
            final(self).spec_last() == old(self).spec_last(),
            spawn == !old(self).spec_running(),
    {
        let was_running = self.running;
        self.running = true;
        !was_running
    }

    /// Switches the watcher off. The poll loop observes the flag at its
    /// next iteration and exits; cancellation is cooperative.
    pub fn stop(&mut self)
        ensures
            !final(self).spec_running(),
            final(self).spec_last() == old(self).spec_last(),
    {
        self.running = false;
    }

    /// Feeds one clipboard reading through the deduplicating state
    /// machine: returns a fresh unpinned item exactly when the reading
    /// holds content that differs from the last observed content, and
    /// remembers the reading.
    pub fn observe(&mut self, reading: Option<ClipboardContent>) -> (r: Option<ClipboardItem>)
        ensures
            final(self).spec_running() == old(self).spec_running(),
            final(self).spec_last() == next_last(old(self).spec_last(), reading_view(reading)),
            r is Some == should_emit(old(self).spec_last(), reading_view(reading)),
            r matches Some(item) ==> item@.content == reading_view(reading)->Some_0
                && item@.pinned == false,
    {
        match reading {
            Some(content) => {
                let changed = match &self.last_content {
                    Some(last) => !last.eq(&content),
                    None => true,
                };
                if changed {
                    self.last_content = Some(content.clone());
                    Some(ClipboardItem::new(content))
                } else {
                    self.last_content = Some(content);
                    None
                }
            },
            None => None,
        }
    }
}

impl Default for ClipboardWatcher {
    /// Same as `new`: a stopped watcher that has observed nothing.
    fn default() -> (r: Self)
        ensures
            !r.spec_running(),
            r.spec_last() is None,
    {
        ClipboardWatcher::new()
    }
}

} // verus!
