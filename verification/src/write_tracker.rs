//! Write tracker: remembers the files that the application wrote a moment
//! ago, so that a file watcher can tell its own writes from those of other
//! programs.
//!
//! Time is a count of milliseconds on a clock that never runs backwards;
//! the caller reads the clock.

use vstd::prelude::*;
use vstd::string::*;

use crate::registry::Registry;
use crate::text::{lowercase_of, replace_char, replaced, to_lowercase};

verus! {

/// A write counts as recent for this many milliseconds.
pub const WRITE_THRESHOLD_MS: u64 = 2000;

/// A write is forgotten after this many milliseconds.
pub const RETENTION_MS: u64 = 10000;

/// The paths written of late, each with the time of its last write.
pub struct WriteTracker {
    writes: Registry<u64>,
}

impl View for WriteTracker {
    type V = Map<Seq<char>, u64>;

    closed spec fn view(&self) -> Map<Seq<char>, u64> {
        self.writes@
    }
}

/// The key under which a path is remembered: forward slashes, lowercase.
pub open spec fn tracker_key(path: Seq<char>) -> Seq<char> {
    lowercase_of(replaced(path, '\\', '/'))
}

/// Whether a write at `at` is still remembered at `now`.
pub open spec fn retained(at: u64, now: u64) -> bool {
    now - at < RETENTION_MS
}

/// Whether a write at `at` is recent at `now`.
pub open spec fn recent(at: u64, now: u64) -> bool {
    now - at < WRITE_THRESHOLD_MS
}

/// The writes remembered after one to `key` at `now`: the new one, and of
/// the others those that are not yet forgotten.
pub open spec fn after_write(writes: Map<Seq<char>, u64>, key: Seq<char>, now: u64) -> Map<
    Seq<char>,
    u64,
> {
    Map::new(
        |k: Seq<char>| k == key || (writes.contains_key(k) && retained(writes[k], now)),
        |k: Seq<char>|
            if k == key {
                now
            } else {
                writes[k]
            },
    )
}

/// Whether `key` was written recently before `now`.
pub open spec fn written_recently(writes: Map<Seq<char>, u64>, key: Seq<char>, now: u64) -> bool {
    writes.contains_key(key) && recent(writes[key], now)
}

impl WriteTracker {
    /// A tracker that remembers nothing.
    pub fn new() -> (t: Self)
        ensures
            t@ == Map::<Seq<char>, u64>::empty(),
    {
        WriteTracker { writes: Registry::new() }
    }

    /// Remembers a write to `key` at `now_ms` and forgets the writes that
    /// are older than the retention time.
    pub fn record_key(&mut self, key: String, now_ms: u64)
        ensures
            final(self)@ == after_write(old(self)@, key@, now_ms),
    {
        let ghost before = self.writes@;
        self.writes.insert(key, now_ms);
        let ghost all = self.writes@;
        let mut kept: Registry<u64> = Registry::new();
        loop
            invariant
                forall|k: Seq<char>| #[trigger]
                    kept@.contains_key(k) <==> all.contains_key(k) && !self.writes@.contains_key(k)
                        && retained(all[k], now_ms),
                forall|k: Seq<char>| #[trigger] kept@.contains_key(k) ==> kept@[k] == all[k],
                forall|k: Seq<char>| #[trigger]
                    self.writes@.contains_key(k) ==> all.contains_key(k) && self.writes@[k]
                        == all[k],
            ensures
                self.writes.size() == 0,
                forall|k: Seq<char>| #[trigger]
                    kept@.contains_key(k) <==> all.contains_key(k) && !self.writes@.contains_key(k)
                        && retained(all[k], now_ms),
                forall|k: Seq<char>| #[trigger] kept@.contains_key(k) ==> kept@[k] == all[k],
            decreases self.writes.size(),
        {
            match self.writes.pop() {
                None => {
                    break ;
                },
                Some((k, at)) => {
                    if at >= now_ms || now_ms - at < RETENTION_MS {
                        kept.insert(k, at);
                    }
                },
            }
        }
        proof {
            self.writes.lemma_size();
            assert(kept@ =~= after_write(before, key@, now_ms));
        }
        self.writes = kept;
    }

    /// Whether `key` was written recently before `now_ms`.
    pub fn key_recently_written(&self, key: &str, now_ms: u64) -> (r: bool)
        ensures
            r == written_recently(self@, key@, now_ms),
    {
        match self.writes.get(key) {
            Some(at) => *at >= now_ms || now_ms - *at < WRITE_THRESHOLD_MS,
            None => false,
        }
    }
}

/// Normalize path for consistent comparison (forward slashes, lowercase).
pub fn normalize_path(path: &str) -> (key: String)
    ensures
        key@ == tracker_key(path@),
{
    let slashed = replace_char(path, '\\', '/');
    to_lowercase(slashed.as_str())
}

/// Record that the file at `path` was written at `now_ms`.
pub fn record_write(tracker: &mut WriteTracker, path: &str, now_ms: u64)
    ensures
        final(tracker)@ == after_write(old(tracker)@, tracker_key(path@), now_ms),
{
    let key = normalize_path(path);
    tracker.record_key(key, now_ms);
}

/// Check if the file at `path` was written within the threshold before
/// `now_ms`.
pub fn was_recently_written(tracker: &WriteTracker, path: &str, now_ms: u64) -> (r: bool)
    ensures
        r == written_recently(tracker@, tracker_key(path@), now_ms),
{
    let key = normalize_path(path);
    tracker.key_recently_written(key.as_str(), now_ms)
}

} // verus!
