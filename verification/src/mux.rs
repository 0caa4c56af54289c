//! The state of a multiplexed connection: its active tasks, its image, and what
//! it remembers for inference.

use std::collections::HashMap;

use vstd::prelude::*;

use crate::json::Json;
use crate::protocol::{encode_image_set, ErrorCode, ErrorReply, WireCodes};
use crate::text::{push_decimal, same_text};

verus! {

broadcast use vstd::std_specs::hash::group_hash_axioms;

pub const MAX_CONCURRENT_INFERENCES: u32 = 2;

pub const MAX_PREPARED_DIMENSIONS: usize = 256;

/// An active stream. `T` is the handle of the task that runs it.
#[derive(Debug)]
pub struct ActiveStream<T> {
    pub task: T,
    /// Image being streamed.
    pub image_id: String,
}

/// An active inference task.
#[derive(Debug)]
pub struct ActiveInference<T> {
    pub task: T,
    /// Model being used.
    pub model_id: String,
}

/// An active model preparation task.
#[derive(Debug)]
pub struct ActivePrepare<T> {
    pub task: T,
    /// Model being prepared.
    pub model_id: String,
}

/// Cached image data for inference operations.
#[derive(Debug)]
pub struct CachedImageData {
    pub image_id: String,
    pub rgb_data: Vec<u8>,
    pub width: u32,
    pub height: u32,
}

/// The dimensions of a prepared embedding, and when they were last used.
#[derive(Debug)]
pub struct PreparedDimensionsEntry {
    pub key: String,
    pub width: u32,
    pub height: u32,
    pub last_access_tick: u64,
}

/// Manages all active streams for a single WebSocket connection.
#[derive(Debug)]
pub struct ConnectionStreams<T> {
    /// Active streams by request id.
    pub streams: HashMap<u32, ActiveStream<T>>,
    /// Active prepare tasks by request id.
    pub prepares: HashMap<u32, ActivePrepare<T>>,
    /// Active inference tasks by request id.
    pub inferences: HashMap<u32, ActiveInference<T>>,
    /// Maximum concurrent streams allowed.
    pub max_streams: u32,
    /// Maximum concurrent inferences allowed.
    pub max_inferences: u32,
    /// Active image.
    pub active_image_id: Option<String>,
    /// Cached RGB image data for inference.
    pub cached_image: Option<CachedImageData>,
    /// Prepared embedding dimensions; no two entries have the same key.
    pub prepared: Vec<PreparedDimensionsEntry>,
    pub prepared_dimensions_tick: u64,
}

// ----------------------------------------------------------------------------
// Prepared dimensions
// ----------------------------------------------------------------------------

/// Width, height and last use of the entry under a key.
pub open spec fn lookup(entries: Seq<PreparedDimensionsEntry>, key: Seq<char>) -> Option<
    (u32, u32, u64),
>
    decreases entries.len(),
{
    if entries.len() == 0 {
        None
    } else if entries.last().key@ == key {
        Some((entries.last().width, entries.last().height, entries.last().last_access_tick))
    } else {
        lookup(entries.drop_last(), key)
    }
}

/// Whether no two entries have the same key.
pub open spec fn unique_keys(entries: Seq<PreparedDimensionsEntry>) -> bool {
    forall|i: int, j: int|
        0 <= i < j < entries.len() ==> (#[trigger] entries[i]).key@ != (#[trigger] entries[j]).key@
}

/// Whether the entries were used at different times, none after `tick`.
pub open spec fn used_in_order(entries: Seq<PreparedDimensionsEntry>, tick: u64) -> bool {
    &&& forall|i: int|
        0 <= i < entries.len() ==> (#[trigger] entries[i]).last_access_tick <= tick
    &&& forall|i: int, j: int|
        0 <= i < j < entries.len() ==> (#[trigger] entries[i]).last_access_tick != (
        #[trigger] entries[j]).last_access_tick
}

proof fn lemma_lookup_at(entries: Seq<PreparedDimensionsEntry>, i: int)
    requires
        unique_keys(entries),
        0 <= i < entries.len(),
    ensures
        lookup(entries, entries[i].key@) == Some(
            (entries[i].width, entries[i].height, entries[i].last_access_tick),
        ),
    decreases entries.len(),
{
    if i < entries.len() - 1 {
        assert(entries[i].key@ != entries[entries.len() - 1].key@);
        lemma_lookup_at(entries.drop_last(), i);
    }
}

proof fn lemma_lookup_none(entries: Seq<PreparedDimensionsEntry>, key: Seq<char>)
    requires
        forall|i: int| 0 <= i < entries.len() ==> (#[trigger] entries[i]).key@ != key,
    ensures
        lookup(entries, key) is None,
    decreases entries.len(),
{
    if entries.len() > 0 {
        assert(entries[entries.len() - 1].key@ != key);
        lemma_lookup_none(entries.drop_last(), key);
    }
}

proof fn lemma_lookup_some(entries: Seq<PreparedDimensionsEntry>, key: Seq<char>) -> (i: int)
    requires
        lookup(entries, key) is Some,
    ensures
        0 <= i < entries.len(),
        entries[i].key@ == key,
        lookup(entries, key) == Some(
            (entries[i].width, entries[i].height, entries[i].last_access_tick),
        ),
    decreases entries.len(),
{
    if entries.last().key@ == key {
        entries.len() - 1
    } else {
        lemma_lookup_some(entries.drop_last(), key)
    }
}

/// Lists that hold the same entries under a key answer the same.
proof fn lemma_lookup_same(
    a: Seq<PreparedDimensionsEntry>,
    b: Seq<PreparedDimensionsEntry>,
    key: Seq<char>,
)
    requires
        unique_keys(a),
        unique_keys(b),
        forall|i: int|
            0 <= i < a.len() && (#[trigger] a[i]).key@ == key ==> exists|j: int|
                0 <= j < b.len() && #[trigger] b[j] == a[i],
        forall|j: int|
            0 <= j < b.len() && (#[trigger] b[j]).key@ == key ==> exists|i: int|
                0 <= i < a.len() && #[trigger] a[i] == b[j],
    ensures
        lookup(a, key) == lookup(b, key),
{
    if lookup(a, key) is Some {
        let i = lemma_lookup_some(a, key);
        let j = choose|j: int| 0 <= j < b.len() && #[trigger] b[j] == a[i];
        lemma_lookup_at(b, j);
    } else if lookup(b, key) is Some {
        let j = lemma_lookup_some(b, key);
        let i = choose|i: int| 0 <= i < a.len() && #[trigger] a[i] == b[j];
        lemma_lookup_at(a, i);
    }
}

/// The index of the entry under a key.
fn find_entry(entries: &Vec<PreparedDimensionsEntry>, key: &str) -> (r: Option<usize>)
    requires
        unique_keys(entries@),
    ensures
        match r {
            Some(i) => i < entries@.len() && entries@[i as int].key@ == key@,
            None => forall|i: int| 0 <= i < entries@.len() ==> (#[trigger] entries@[i]).key@ != key@,
        },
{
    let mut i: usize = 0;
    while i < entries.len()
        invariant
            i <= entries@.len(),
            forall|k: int| 0 <= k < i ==> (#[trigger] entries@[k]).key@ != key@,
        decreases entries@.len() - i,
    {
        if same_text(entries[i].key.as_str(), key) {
            return Some(i);
        }
        i = i + 1;
    }
    None
}

/// The index of the entry that was used longest ago.
fn oldest_entry(entries: &Vec<PreparedDimensionsEntry>) -> (oldest: usize)
    requires
        entries@.len() > 0,
    ensures
        oldest < entries@.len(),
        forall|i: int|
            0 <= i < entries@.len() ==> entries@[oldest as int].last_access_tick <= (
            #[trigger] entries@[i]).last_access_tick,
{
    let mut oldest: usize = 0;
    let mut i: usize = 1;
    while i < entries.len()
        invariant
            oldest < entries@.len(),
            1 <= i <= entries@.len(),
            forall|k: int|
                0 <= k < i ==> entries@[oldest as int].last_access_tick <= (
                #[trigger] entries@[k]).last_access_tick,
        decreases entries@.len() - i,
    {
        if entries[i].last_access_tick < entries[oldest].last_access_tick {
            oldest = i;
        }
        i = i + 1;
    }
    oldest
}

/// The tick after a tick; after the greatest the ticks start again.
pub open spec fn next_tick(tick: u64) -> u64 {
    if tick == u64::MAX {
        0
    } else {
        (tick + 1) as u64
    }
}

/// What a lookup answers after an entry was cached and nothing had to go.
pub open spec fn after_caching(
    entries: Seq<PreparedDimensionsEntry>,
    key: Seq<char>,
    width: u32,
    height: u32,
    tick: u64,
    asked: Seq<char>,
) -> Option<(u32, u32, u64)> {
    if asked == key {
        Some((width, height, tick))
    } else {
        lookup(entries, asked)
    }
}

/// Whether an entry went because it was used longest ago of all, the one that
/// was cached counted in.
pub open spec fn evicted(
    before: Seq<PreparedDimensionsEntry>,
    key: Seq<char>,
    width: u32,
    height: u32,
    tick: u64,
    after: Seq<PreparedDimensionsEntry>,
    gone: Seq<char>,
) -> bool {
    &&& after_caching(before, key, width, height, tick, gone) is Some
    &&& forall|asked: Seq<char>| #[trigger]
        lookup(after, asked) == (if asked == gone {
            None
        } else {
            after_caching(before, key, width, height, tick, asked)
        })
    &&& forall|asked: Seq<char>|
        (#[trigger] after_caching(before, key, width, height, tick, asked)) matches Some(entry)
            ==> (after_caching(before, key, width, height, tick, gone)->0).2 <= entry.2
}

impl<T> ConnectionStreams<T> {
    /// Whether the prepared dimensions have unique keys and keep their limit.
    pub open spec fn wf(&self) -> bool {
        unique_keys(self.prepared@) && self.prepared@.len() <= MAX_PREPARED_DIMENSIONS
    }

    /// Whether the entries were used at different times, none after now.
    pub open spec fn ticks_fresh(&self) -> bool {
        used_in_order(self.prepared@, self.prepared_dimensions_tick)
    }

    /// A connection without tasks.
    pub fn new(max_streams: u32, max_inferences: u32) -> (streams: Self)
        ensures
            streams.streams@ == Map::<u32, ActiveStream<T>>::empty(),
            streams.prepares@ == Map::<u32, ActivePrepare<T>>::empty(),
            streams.inferences@ == Map::<u32, ActiveInference<T>>::empty(),
            streams.max_streams == max_streams,
            streams.max_inferences == max_inferences,
            streams.active_image_id is None,
            streams.cached_image is None,
            streams.prepared@.len() == 0,
            streams.prepared_dimensions_tick == 0,
            streams.wf(),
            streams.ticks_fresh(),
    {
        ConnectionStreams {
            streams: HashMap::new(),
            prepares: HashMap::new(),
            inferences: HashMap::new(),
            max_streams,
            max_inferences,
            active_image_id: None,
            cached_image: None,
            prepared: Vec::new(),
            prepared_dimensions_tick: 0,
        }
    }

    /// The number of prepared dimensions that are kept.
    pub fn prepared_count(&self) -> (count: usize)
        ensures
            count == self.prepared@.len(),
    {
        self.prepared.len()
    }

    fn next_prepared_dimensions_tick(&mut self) -> (tick: u64)
        ensures
            tick == next_tick(old(self).prepared_dimensions_tick),
            *final(self) == (ConnectionStreams { prepared_dimensions_tick: tick, ..*old(self) }),
    {
        self.prepared_dimensions_tick = if self.prepared_dimensions_tick == u64::MAX {
            0
        } else {
            self.prepared_dimensions_tick + 1
        };
        self.prepared_dimensions_tick
    }

    /// Record dimensions for a prepared embedding key. Where there are too many,
    /// the entry that was used longest ago goes.
    pub fn cache_prepared_dimensions(&mut self, embedding_key: String, width: u32, height: u32)
        requires
            old(self).wf(),
        ensures
            final(self).wf(),
            final(self).streams == old(self).streams,
            final(self).prepares == old(self).prepares,
            final(self).inferences == old(self).inferences,
            final(self).max_streams == old(self).max_streams,
            final(self).max_inferences == old(self).max_inferences,
            final(self).active_image_id == old(self).active_image_id,
            final(self).cached_image == old(self).cached_image,
            final(self).prepared_dimensions_tick == next_tick(old(self).prepared_dimensions_tick),
            if lookup(old(self).prepared@, embedding_key@) is Some || old(self).prepared@.len()
                < MAX_PREPARED_DIMENSIONS {
                forall|asked: Seq<char>| #[trigger]
                    lookup(final(self).prepared@, asked) == after_caching(
                        old(self).prepared@,
                        embedding_key@,
                        width,
                        height,
                        next_tick(old(self).prepared_dimensions_tick),
                        asked,
                    )
            } else {
                exists|gone: Seq<char>|
                    evicted(
                        old(self).prepared@,
                        embedding_key@,
                        width,
                        height,
                        next_tick(old(self).prepared_dimensions_tick),
                        final(self).prepared@,
                        gone,
                    )
            },
            final(self).prepared@.len() == (if lookup(old(self).prepared@, embedding_key@) is Some
                || old(self).prepared@.len() == MAX_PREPARED_DIMENSIONS {
                old(self).prepared@.len()
            } else {
                old(self).prepared@.len() + 1
            }),
            old(self).ticks_fresh() && old(self).prepared_dimensions_tick < u64::MAX
                ==> final(self).ticks_fresh(),
    {
        let tick = self.next_prepared_dimensions_tick();
        let ghost before = self.prepared@;
        let ghost key = embedding_key@;
        let entry = PreparedDimensionsEntry {
            key: embedding_key,
            width,
            height,
            last_access_tick: tick,
        };
        let ghost fresh = entry;
        match find_entry(&self.prepared, entry.key.as_str()) {
            Some(i) => {
                self.prepared[i] = entry;
                proof {
                    lemma_lookup_at(before, i as int);
                    lemma_replaced(before, i as int, fresh);
                }
            },
            None => {
                self.prepared.push(entry);
                proof {
                    lemma_lookup_none(before, key);
                    lemma_pushed(before, fresh);
                }
            },
        }
        if self.prepared.len() > MAX_PREPARED_DIMENSIONS {
            let oldest = oldest_entry(&self.prepared);
            let ghost full = self.prepared@;
            let ghost gone = full[oldest as int].key@;
            self.prepared.swap_remove(oldest);
            proof {
                lemma_lookup_at(full, oldest as int);
                lemma_swap_removed(full, oldest as int, self.prepared@);
                assert forall|asked: Seq<char>|
                    (#[trigger] after_caching(before, key, width, height, tick, asked)) matches Some(
                        e,
                    ) ==> (after_caching(before, key, width, height, tick, gone)->0).2 <= e.2 by {
                    assert(lookup(full, asked) == after_caching(
                        before,
                        key,
                        width,
                        height,
                        tick,
                        asked,
                    ));
                    if lookup(full, asked) is Some {
                        let k = lemma_lookup_some(full, asked);
                        assert(full[oldest as int].last_access_tick <= full[k].last_access_tick);
                    }
                }
                assert(evicted(before, key, width, height, tick, self.prepared@, gone));
            }
        }
    }

    /// Read dimensions for a prepared embedding key and mark as recently used.
    pub fn prepared_dimensions(&mut self, embedding_key: &str) -> (r: Option<(u32, u32)>)
        requires
            old(self).wf(),
        ensures
            final(self).wf(),
            final(self).streams == old(self).streams,
            final(self).prepares == old(self).prepares,
            final(self).inferences == old(self).inferences,
            final(self).max_streams == old(self).max_streams,
            final(self).max_inferences == old(self).max_inferences,
            final(self).active_image_id == old(self).active_image_id,
            final(self).cached_image == old(self).cached_image,
            final(self).prepared_dimensions_tick == next_tick(old(self).prepared_dimensions_tick),
            final(self).prepared@.len() == old(self).prepared@.len(),
            match r {
                Some(size) => {
                    &&& lookup(old(self).prepared@, embedding_key@) matches Some(entry) && entry.0
                        == size.0 && entry.1 == size.1
                    &&& forall|asked: Seq<char>| #[trigger]
                        lookup(final(self).prepared@, asked) == after_caching(
                            old(self).prepared@,
                            embedding_key@,
                            size.0,
                            size.1,
                            next_tick(old(self).prepared_dimensions_tick),
                            asked,
                        )
                },
                None => lookup(old(self).prepared@, embedding_key@) is None && final(self).prepared
                    == old(self).prepared,
            },
            old(self).ticks_fresh() && old(self).prepared_dimensions_tick < u64::MAX
                ==> final(self).ticks_fresh(),
    {
        let tick = self.next_prepared_dimensions_tick();
        let ghost before = self.prepared@;
        match find_entry(&self.prepared, embedding_key) {
            Some(i) => {
                let width: u32 = self.prepared[i].width;
                let height: u32 = self.prepared[i].height;
                let entry = PreparedDimensionsEntry {
                    key: embedding_key.to_owned(),
                    width,
                    height,
                    last_access_tick: tick,
                };
                let ghost fresh = entry;
                self.prepared[i] = entry;
                proof {
                    lemma_lookup_at(before, i as int);
                    lemma_replaced(before, i as int, fresh);
                }
                Some((width, height))
            },
            None => {
                proof {
                    lemma_lookup_none(before, embedding_key@);
                }
                None
            },
        }
    }
}

proof fn lemma_replaced(
    before: Seq<PreparedDimensionsEntry>,
    i: int,
    fresh: PreparedDimensionsEntry,
)
    requires
        unique_keys(before),
        0 <= i < before.len(),
        before[i].key@ == fresh.key@,
    ensures
        unique_keys(before.update(i, fresh)),
        forall|asked: Seq<char>| #[trigger]
            lookup(before.update(i, fresh), asked) == after_caching(
                before,
                fresh.key@,
                fresh.width,
                fresh.height,
                fresh.last_access_tick,
                asked,
            ),
{
    let after = before.update(i, fresh);
    assert(unique_keys(after)) by {
        assert forall|a: int, b: int| 0 <= a < b < after.len() implies (#[trigger] after[a]).key@
            != (#[trigger] after[b]).key@ by {
            assert(before[a].key@ != before[b].key@);
        }
    }
    assert forall|asked: Seq<char>| #[trigger] lookup(after, asked) == after_caching(
        before,
        fresh.key@,
        fresh.width,
        fresh.height,
        fresh.last_access_tick,
        asked,
    ) by {
        if asked == fresh.key@ {
            lemma_lookup_at(after, i);
        } else {
            assert forall|a: int|
                0 <= a < after.len() && (#[trigger] after[a]).key@ == asked implies exists|b: int|
                0 <= b < before.len() && #[trigger] before[b] == after[a] by {
                assert(before[a] == after[a]);
            }
            assert forall|b: int|
                0 <= b < before.len() && (#[trigger] before[b]).key@ == asked implies exists|
                a: int,
            |
                0 <= a < after.len() && #[trigger] after[a] == before[b] by {
                assert(after[b] == before[b]);
            }
            lemma_lookup_same(after, before, asked);
        }
    }
}

proof fn lemma_pushed(before: Seq<PreparedDimensionsEntry>, fresh: PreparedDimensionsEntry)
    requires
        unique_keys(before),
        forall|i: int| 0 <= i < before.len() ==> (#[trigger] before[i]).key@ != fresh.key@,
    ensures
        unique_keys(before.push(fresh)),
        forall|asked: Seq<char>| #[trigger]
            lookup(before.push(fresh), asked) == after_caching(
                before,
                fresh.key@,
                fresh.width,
                fresh.height,
                fresh.last_access_tick,
                asked,
            ),
{
    assert(before.push(fresh).drop_last() =~= before);
}

proof fn lemma_swap_removed(
    full: Seq<PreparedDimensionsEntry>,
    i: int,
    after: Seq<PreparedDimensionsEntry>,
)
    requires
        unique_keys(full),
        0 <= i < full.len(),
        after == full.update(i, full.last()).drop_last(),
    ensures
        unique_keys(after),
        forall|asked: Seq<char>| #[trigger]
            lookup(after, asked) == (if asked == full[i].key@ {
                None
            } else {
                lookup(full, asked)
            }),
{
    let last = full.len() - 1;
    assert(unique_keys(after)) by {
        assert forall|a: int, b: int| 0 <= a < b < after.len() implies (#[trigger] after[a]).key@
            != (#[trigger] after[b]).key@ by {
            let fa = if a == i {
                last
            } else {
                a
            };
            let fb = if b == i {
                last
            } else {
                b
            };
            assert(after[a] == full[fa]);
            assert(after[b] == full[fb]);
            assert(full[fa].key@ != full[fb].key@);
        }
    }
    assert forall|asked: Seq<char>| #[trigger] lookup(after, asked) == (if asked == full[i].key@ {
        None
    } else {
        lookup(full, asked)
    }) by {
        if asked == full[i].key@ {
            assert forall|a: int| 0 <= a < after.len() implies (#[trigger] after[a]).key@
                != asked by {
                let fa = if a == i {
                    last
                } else {
                    a
                };
                assert(after[a] == full[fa]);
                assert(fa != i);
                assert(full[fa].key@ != full[i].key@);
            }
            lemma_lookup_none(after, asked);
        } else {
            assert forall|a: int|
                0 <= a < after.len() && (#[trigger] after[a]).key@ == asked implies exists|b: int|
                0 <= b < full.len() && #[trigger] full[b] == after[a] by {
                let fa = if a == i {
                    last
                } else {
                    a
                };
                assert(full[fa] == after[a]);
            }
            assert forall|b: int|
                0 <= b < full.len() && (#[trigger] full[b]).key@ == asked implies exists|a: int|
                0 <= a < after.len() && #[trigger] after[a] == full[b] by {
                if b == last {
                    assert(after[i] == full[b]);
                } else {
                    assert(after[b] == full[b]);
                }
            }
            lemma_lookup_same(after, full, asked);
        }
    }
}

/// The entry that goes is the one that was used longest ago: never the one that
/// was just cached, and every other entry was used after it and stays.
pub proof fn lemma_eviction_is_lru(
    before: Seq<PreparedDimensionsEntry>,
    now: u64,
    key: Seq<char>,
    width: u32,
    height: u32,
    after: Seq<PreparedDimensionsEntry>,
    gone: Seq<char>,
)
    requires
        now < u64::MAX,
        before.len() > 0,
        unique_keys(before),
        used_in_order(before, now),
        lookup(before, key) is None,
        evicted(before, key, width, height, next_tick(now), after, gone),
    ensures
        gone != key,
        lookup(before, gone) is Some,
        lookup(after, gone) is None,
        lookup(after, key) == Some((width, height, next_tick(now))),
        forall|asked: Seq<char>|
            asked != gone && (#[trigger] lookup(before, asked)) is Some ==> lookup(after, asked)
                == lookup(before, asked) && (lookup(before, gone)->0).2 < (lookup(
                before,
                asked,
            )->0).2,
{
    let tick = next_tick(now);
    lemma_lookup_at(before, 0);
    let first = before[0].key@;
    assert(after_caching(before, key, width, height, tick, first) is Some);
    if gone == key {
        assert((after_caching(before, key, width, height, tick, gone)->0).2 == tick);
        assert(before[0].last_access_tick <= now);
    }
    assert(lookup(after, key) == after_caching(before, key, width, height, tick, key));
    assert(lookup(after, gone) is None);
    assert forall|asked: Seq<char>|
        asked != gone && (#[trigger] lookup(before, asked)) is Some implies lookup(after, asked)
        == lookup(before, asked) && (lookup(before, gone)->0).2 < (lookup(before, asked)->0).2 by {
        let i = lemma_lookup_some(before, asked);
        let g = lemma_lookup_some(before, gone);
        assert(after_caching(before, key, width, height, tick, asked) is Some);
        assert(lookup(after, asked) == after_caching(before, key, width, height, tick, asked));
        assert(i != g);
        if i < g {
            assert(before[i].last_access_tick != before[g].last_access_tick);
        } else {
            assert(before[g].last_access_tick != before[i].last_access_tick);
        }
    }
}

// ----------------------------------------------------------------------------
// Image and tasks
// ----------------------------------------------------------------------------

/// Whether an optional text is this text.
pub open spec fn is_text(value: Option<String>, text: Seq<char>) -> bool {
    value matches Some(v) && v@ == text
}

impl<T> ConnectionStreams<T> {
    /// Set the active image context. What is cached of another image goes.
    pub fn set_image(&mut self, image_id: String)
        ensures
            *final(self) == (ConnectionStreams {
                active_image_id: Some(image_id),
                cached_image: if is_text(old(self).active_image_id, image_id@) {
                    old(self).cached_image
                } else {
                    None
                },
                ..*old(self)
            }),
    {
        let same = match &self.active_image_id {
            Some(current) => same_text(current.as_str(), image_id.as_str()),
            None => false,
        };
        if !same {
            self.cached_image = None;
        }
        self.active_image_id = Some(image_id);
    }

    /// Get the active image.
    pub fn active_image(&self) -> (r: Option<&str>)
        ensures
            match r {
                Some(id) => is_text(self.active_image_id, id@),
                None => self.active_image_id is None,
            },
    {
        match &self.active_image_id {
            Some(id) => Some(id.as_str()),
            None => None,
        }
    }

    /// Cache RGB image data for inference.
    pub fn cache_image(&mut self, image_id: String, rgb_data: Vec<u8>, width: u32, height: u32)
        ensures
            *final(self) == (ConnectionStreams {
                cached_image: Some(CachedImageData { image_id, rgb_data, width, height }),
                ..*old(self)
            }),
            final(self).cached(image_id@) matches Some(data) && data.rgb_data@ == rgb_data@
                && data.width == width && data.height == height,
    {
        self.cached_image = Some(CachedImageData { image_id, rgb_data, width, height });
    }

    /// What is cached of an image.
    pub open spec fn cached(&self, image_id: Seq<char>) -> Option<CachedImageData> {
        match self.cached_image {
            Some(data) => if data.image_id@ == image_id {
                Some(data)
            } else {
                None
            },
            None => None,
        }
    }

    /// Get cached image data if available and of this image.
    pub fn get_cached_image(&self, image_id: &str) -> (r: Option<&CachedImageData>)
        ensures
            match r {
                Some(data) => self.cached(image_id@) == Some(*data),
                None => self.cached(image_id@) is None,
            },
    {
        match &self.cached_image {
            Some(data) => if same_text(data.image_id.as_str(), image_id) {
                Some(data)
            } else {
                None
            },
            None => None,
        }
    }

    /// Whether a slot for a stream is free.
    pub open spec fn has_stream_slot(&self) -> bool {
        (self.streams@.len() as u32) < self.max_streams
    }

    /// Whether a slot for an inference is free.
    pub open spec fn has_inference_slot(&self) -> bool {
        (self.inferences@.len() as u32) < self.max_inferences
    }

    /// Check if a new stream may start.
    pub fn can_start_stream(&self) -> (r: bool)
        ensures
            r == self.has_stream_slot(),
    {
        (self.streams.len() as u32) < self.max_streams
    }

    /// Register a new stream.
    pub fn insert(&mut self, request_id: u32, stream: ActiveStream<T>)
        ensures
            final(self).streams@ == old(self).streams@.insert(request_id, stream),
            *final(self) == (ConnectionStreams { streams: final(self).streams, ..*old(self) }),
    {
        self.streams.insert(request_id, stream);
    }

    /// Take out a stream, whose task is then to be aborted.
    pub fn cancel(&mut self, request_id: u32) -> (r: Option<ActiveStream<T>>)
        ensures
            final(self).streams@ == old(self).streams@.remove(request_id),
            *final(self) == (ConnectionStreams { streams: final(self).streams, ..*old(self) }),
            match r {
                Some(stream) => old(self).streams@.contains_key(request_id) && stream == old(
                    self).streams@[request_id],
                None => !old(self).streams@.contains_key(request_id),
            },
    {
        self.streams.remove(&request_id)
    }

    /// Forget a completed stream.
    pub fn remove(&mut self, request_id: u32)
        ensures
            final(self).streams@ == old(self).streams@.remove(request_id),
            *final(self) == (ConnectionStreams { streams: final(self).streams, ..*old(self) }),
    {
        self.streams.remove(&request_id);
    }

    /// Take out all streams, whose tasks are then to be aborted.
    pub fn cancel_all(&mut self) -> (r: HashMap<u32, ActiveStream<T>>)
        ensures
            r@ == old(self).streams@,
            final(self).streams@ == Map::<u32, ActiveStream<T>>::empty(),
            *final(self) == (ConnectionStreams { streams: final(self).streams, ..*old(self) }),
    {
        let mut taken: HashMap<u32, ActiveStream<T>> = HashMap::new();
        std::mem::swap(&mut taken, &mut self.streams);
        taken
    }

    /// Register a new prepare task.
    pub fn insert_prepare(&mut self, request_id: u32, prepare: ActivePrepare<T>)
        ensures
            final(self).prepares@ == old(self).prepares@.insert(request_id, prepare),
            *final(self) == (ConnectionStreams { prepares: final(self).prepares, ..*old(self) }),
    {
        self.prepares.insert(request_id, prepare);
    }

    /// Forget a completed prepare task.
    pub fn remove_prepare(&mut self, request_id: u32)
        ensures
            final(self).prepares@ == old(self).prepares@.remove(request_id),
            *final(self) == (ConnectionStreams { prepares: final(self).prepares, ..*old(self) }),
    {
        self.prepares.remove(&request_id);
    }

    /// Take out all prepare tasks, which are then to be aborted.
    pub fn cancel_all_prepares(&mut self) -> (r: HashMap<u32, ActivePrepare<T>>)
        ensures
            r@ == old(self).prepares@,
            final(self).prepares@ == Map::<u32, ActivePrepare<T>>::empty(),
            *final(self) == (ConnectionStreams { prepares: final(self).prepares, ..*old(self) }),
    {
        let mut taken: HashMap<u32, ActivePrepare<T>> = HashMap::new();
        std::mem::swap(&mut taken, &mut self.prepares);
        taken
    }

    /// Check if a new inference task may start.
    pub fn can_start_inference(&self) -> (r: bool)
        ensures
            r == self.has_inference_slot(),
    {
        (self.inferences.len() as u32) < self.max_inferences
    }

    /// Register a new inference task.
    pub fn insert_inference(&mut self, request_id: u32, inference: ActiveInference<T>)
        ensures
            final(self).inferences@ == old(self).inferences@.insert(request_id, inference),
            *final(self) == (ConnectionStreams { inferences: final(self).inferences, ..*old(self) }),
    {
        self.inferences.insert(request_id, inference);
    }

    /// Take out an inference task, which is then to be aborted.
    pub fn cancel_inference(&mut self, request_id: u32) -> (r: Option<ActiveInference<T>>)
        ensures
            final(self).inferences@ == old(self).inferences@.remove(request_id),
            *final(self) == (ConnectionStreams { inferences: final(self).inferences, ..*old(self) }),
            match r {
                Some(inference) => old(self).inferences@.contains_key(request_id) && inference
                    == old(self).inferences@[request_id],
                None => !old(self).inferences@.contains_key(request_id),
            },
    {
        self.inferences.remove(&request_id)
    }

    /// Forget a completed inference task.
    pub fn remove_inference(&mut self, request_id: u32)
        ensures
            final(self).inferences@ == old(self).inferences@.remove(request_id),
            *final(self) == (ConnectionStreams { inferences: final(self).inferences, ..*old(self) }),
    {
        self.inferences.remove(&request_id);
    }

    /// Take out all inference tasks, which are then to be aborted.
    pub fn cancel_all_inferences(&mut self) -> (r: HashMap<u32, ActiveInference<T>>)
        ensures
            r@ == old(self).inferences@,
            final(self).inferences@ == Map::<u32, ActiveInference<T>>::empty(),
            *final(self) == (ConnectionStreams { inferences: final(self).inferences, ..*old(self) }),
    {
        let mut taken: HashMap<u32, ActiveInference<T>> = HashMap::new();
        std::mem::swap(&mut taken, &mut self.inferences);
        taken
    }
}

// ----------------------------------------------------------------------------
// Messages
// ----------------------------------------------------------------------------

/// What a client asks for.
#[derive(Debug)]
pub enum ClientMessage {
    SetImage { request_id: u32, image_id: String },
    StreamImage { request_id: u32, level: u32, progressive: bool },
    CancelStream { request_id: u32 },
    PrepareModel {
        request_id: u32,
        model_id: String,
        image_id: Option<String>,
        config: Option<Json>,
    },
    Infer {
        request_id: u32,
        model_id: String,
        image_id: Option<String>,
        inputs: Json,
        options: Json,
    },
    CancelInfer { request_id: u32 },
    Pong { timestamp: u64 },
}

/// A model to be prepared for an image.
#[derive(Debug)]
pub struct PrepareModelRequest {
    pub request_id: u32,
    pub model_id: String,
    pub image_id: Option<String>,
    pub config: Option<Json>,
}

/// An inference to be run.
#[derive(Debug)]
pub struct InferModelRequest {
    pub request_id: u32,
    pub model_id: String,
    pub image_id: Option<String>,
    pub inputs: Json,
    pub options: Json,
}

/// What follows from a client's message.
#[derive(Debug)]
pub enum MuxAction<T> {
    /// Nothing is done.
    Nothing,
    /// A frame is sent.
    Send(Vec<u8>),
    /// An error is sent.
    Fail(ErrorReply),
    /// A stream of the image is started and registered.
    StartStream { request_id: u32, image_id: String, level: u32, progressive: bool },
    /// The task of a stream or an inference is aborted.
    Abort(T),
    /// The prepare tasks are aborted, and a new one is started and registered.
    StartPrepare { request: PrepareModelRequest, aborted: HashMap<u32, ActivePrepare<T>> },
    /// The prepare tasks are aborted, and an inference is started and registered.
    StartInference { request: InferModelRequest, aborted: HashMap<u32, ActivePrepare<T>> },
}

/// Whether an action sends this error.
pub open spec fn fails<T>(
    action: MuxAction<T>,
    request_id: u32,
    code: ErrorCode,
    message: Seq<char>,
    retry_after_ms: Option<u32>,
) -> bool {
    action matches MuxAction::Fail(reply) && reply.says(request_id, code, message, retry_after_ms)
}

fn limit_message(start: &str, limit: u32) -> (out: String)
    ensures
        out@ == start@ + crate::text::decimal(limit as nat) + ") reached"@,
{
    let mut out = start.to_owned();
    push_decimal(&mut out, limit as u64);
    out.append(") reached");
    out
}

/// Whether the answer to a request for a stream is as it should be: an image must
/// be set, and a slot must be free.
pub open spec fn answers_stream<T>(
    streams: ConnectionStreams<T>,
    request_id: u32,
    level: u32,
    progressive: bool,
    action: MuxAction<T>,
) -> bool {
    match streams.active_image_id {
        None => fails(
            action,
            request_id,
            ErrorCode::NoActiveImage,
            "No active image set. Call set_image first."@,
            None,
        ),
        Some(image) => if streams.has_stream_slot() {
            action matches MuxAction::StartStream {
                request_id: id,
                image_id,
                level: l,
                progressive: p,
            } && id == request_id && image_id@ == image@ && l == level && p == progressive
        } else {
            fails(
                action,
                request_id,
                ErrorCode::RateLimited,
                "Maximum concurrent streams ("@ + crate::text::decimal(streams.max_streams as nat)
                    + ") reached"@,
                Some(1000),
            )
        },
    }
}

/// Answers a request for a stream.
pub fn handle_stream_image<T>(
    streams: &ConnectionStreams<T>,
    request_id: u32,
    level: u32,
    progressive: bool,
) -> (action: MuxAction<T>)
    ensures
        answers_stream(*streams, request_id, level, progressive, action),
{
    match streams.active_image() {
        None => MuxAction::Fail(
            ErrorReply::error(
                request_id,
                ErrorCode::NoActiveImage,
                "No active image set. Call set_image first.".to_owned(),
            ),
        ),
        Some(image) => if streams.can_start_stream() {
            MuxAction::StartStream { request_id, image_id: image.to_owned(), level, progressive }
        } else {
            MuxAction::Fail(
                ErrorReply::retryable(
                    request_id,
                    ErrorCode::RateLimited,
                    limit_message("Maximum concurrent streams (", streams.max_streams),
                    1000,
                ),
            )
        },
    }
}

/// Whether a message is answered as it should be on a connection with models.
pub open spec fn answers_message<T>(
    before: ConnectionStreams<T>,
    codes: WireCodes,
    message: ClientMessage,
    after: ConnectionStreams<T>,
    action: MuxAction<T>,
) -> bool {
    match message {
        ClientMessage::SetImage { request_id, image_id } => {
            &&& after.active_image_id matches Some(id) && id@ == image_id@
            &&& after == (ConnectionStreams {
                active_image_id: after.active_image_id,
                cached_image: if is_text(before.active_image_id, image_id@) {
                    before.cached_image
                } else {
                    None
                },
                ..before
            })
            &&& action matches MuxAction::Send(frame) && frame@ == crate::protocol::mux_frame(
                codes,
                crate::protocol::ServerMessageType::ImageSet,
                request_id,
                crate::protocol::prefixed_text(image_id@),
            )
        },
        ClientMessage::StreamImage { request_id, level, progressive } => after == before
            && answers_stream(before, request_id, level, progressive, action),
        ClientMessage::CancelStream { request_id } => {
            &&& after.streams@ == before.streams@.remove(request_id)
            &&& after == (ConnectionStreams { streams: after.streams, ..before })
            &&& if before.streams@.contains_key(request_id) {
                action == MuxAction::Abort(before.streams@[request_id].task)
            } else {
                action is Nothing
            }
        },
        ClientMessage::PrepareModel { request_id, model_id, image_id, config } => {
            &&& after.prepares@ == Map::<u32, ActivePrepare<T>>::empty()
            &&& after == (ConnectionStreams { prepares: after.prepares, ..before })
            &&& action matches MuxAction::StartPrepare { request, aborted } && request == (
            PrepareModelRequest { request_id, model_id, image_id, config }) && aborted@
                == before.prepares@
        },
        ClientMessage::Infer {
            request_id,
            model_id,
            image_id,
            inputs,
            options,
        } => if before.has_inference_slot() {
            &&& after.prepares@ == Map::<u32, ActivePrepare<T>>::empty()
            &&& after == (ConnectionStreams { prepares: after.prepares, ..before })
            &&& action matches MuxAction::StartInference { request, aborted } && request == (
            InferModelRequest { request_id, model_id, image_id, inputs, options }) && aborted@
                == before.prepares@
        } else {
            after == before && fails(
                action,
                request_id,
                ErrorCode::ModelBusy,
                "Maximum concurrent inferences ("@ + crate::text::decimal(
                    before.max_inferences as nat,
                ) + ") reached"@,
                Some(100),
            )
        },
        ClientMessage::CancelInfer { request_id } => {
            &&& after.inferences@ == before.inferences@.remove(request_id)
            &&& after == (ConnectionStreams { inferences: after.inferences, ..before })
            &&& if before.inferences@.contains_key(request_id) {
                action == MuxAction::Abort(before.inferences@[request_id].task)
            } else {
                action is Nothing
            }
        },
        ClientMessage::Pong { timestamp } => after == before && action is Nothing,
    }
}

/// Answers a message on a connection with models.
pub fn handle_mux_message<T>(
    streams: &mut ConnectionStreams<T>,
    codes: &WireCodes,
    message: ClientMessage,
) -> (action: MuxAction<T>)
    ensures
        answers_message(*old(streams), *codes, message, *final(streams), action),
        old(streams).wf() ==> final(streams).wf(),
{
    match message {
        ClientMessage::SetImage { request_id, image_id } => {
            let frame = encode_image_set(codes, request_id, image_id.as_str());
            streams.set_image(image_id);
            MuxAction::Send(frame)
        },
        ClientMessage::StreamImage { request_id, level, progressive } => handle_stream_image(
            streams,
            request_id,
            level,
            progressive,
        ),
        ClientMessage::CancelStream { request_id } => match streams.cancel(request_id) {
            Some(stream) => MuxAction::Abort(stream.task),
            None => MuxAction::Nothing,
        },
        ClientMessage::PrepareModel { request_id, model_id, image_id, config } => {
            let aborted = streams.cancel_all_prepares();
            MuxAction::StartPrepare {
                request: PrepareModelRequest { request_id, model_id, image_id, config },
                aborted,
            }
        },
        ClientMessage::Infer { request_id, model_id, image_id, inputs, options } => {
            if !streams.can_start_inference() {
                return MuxAction::Fail(
                    ErrorReply::retryable(
                        request_id,
                        ErrorCode::ModelBusy,
                        limit_message("Maximum concurrent inferences (", streams.max_inferences),
                        100,
                    ),
                );
            }
            let aborted = streams.cancel_all_prepares();
            MuxAction::StartInference {
                request: InferModelRequest { request_id, model_id, image_id, inputs, options },
                aborted,
            }
        },
        ClientMessage::CancelInfer { request_id } => match streams.cancel_inference(request_id) {
            Some(inference) => MuxAction::Abort(inference.task),
            None => MuxAction::Nothing,
        },
        ClientMessage::Pong { timestamp: _ } => MuxAction::Nothing,
    }
}

/// Whether a message is answered as it should be on a connection without models:
/// as with models, but for inference, which is refused.
pub open spec fn answers_without_models<T>(
    before: ConnectionStreams<T>,
    codes: WireCodes,
    message: ClientMessage,
    after: ConnectionStreams<T>,
    action: MuxAction<T>,
) -> bool {
    let refusal = "Inference is not supported by this backend"@;
    match message {
        ClientMessage::PrepareModel { request_id, .. } => after == before && fails(
            action,
            request_id,
            ErrorCode::InvalidAction,
            refusal,
            None,
        ),
        ClientMessage::Infer { request_id, .. } => after == before && fails(
            action,
            request_id,
            ErrorCode::InvalidAction,
            refusal,
            None,
        ),
        ClientMessage::CancelInfer { request_id } => after == before && fails(
            action,
            request_id,
            ErrorCode::InvalidAction,
            refusal,
            None,
        ),
        _ => answers_message(before, codes, message, after, action),
    }
}

fn refuse_inference<T>(request_id: u32) -> (action: MuxAction<T>)
    ensures
        fails(
            action,
            request_id,
            ErrorCode::InvalidAction,
            "Inference is not supported by this backend"@,
            None,
        ),
{
    MuxAction::Fail(
        ErrorReply::error(
            request_id,
            ErrorCode::InvalidAction,
            "Inference is not supported by this backend".to_owned(),
        ),
    )
}

/// Answers a message on a connection without models.
pub fn handle_message<T>(
    streams: &mut ConnectionStreams<T>,
    codes: &WireCodes,
    message: ClientMessage,
) -> (action: MuxAction<T>)
    ensures
        answers_without_models(*old(streams), *codes, message, *final(streams), action),
        old(streams).wf() ==> final(streams).wf(),
{
    match message {
        ClientMessage::PrepareModel { request_id, .. } => refuse_inference(request_id),
        ClientMessage::Infer { request_id, .. } => refuse_inference(request_id),
        ClientMessage::CancelInfer { request_id } => refuse_inference(request_id),
        other => handle_mux_message(streams, codes, other),
    }
}

/// A stream that may start does not exceed the limit once it is registered.
pub proof fn lemma_stream_limit<T>(
    streams: ConnectionStreams<T>,
    request_id: u32,
    stream: ActiveStream<T>,
)
    requires
        streams.streams@.dom().finite(),
        streams.streams@.len() < streams.max_streams,
    ensures
        streams.streams@.insert(request_id, stream).len() <= streams.max_streams,
{
}

/// What is streamed is the image that was set last, if there is a free slot.
pub proof fn lemma_set_image_is_streamed<T>(
    before: ConnectionStreams<T>,
    codes: WireCodes,
    set_id: u32,
    image_id: String,
    set: ConnectionStreams<T>,
    set_action: MuxAction<T>,
    stream_id: u32,
    level: u32,
    progressive: bool,
    after: ConnectionStreams<T>,
    action: MuxAction<T>,
)
    requires
        answers_message(
            before,
            codes,
            ClientMessage::SetImage { request_id: set_id, image_id },
            set,
            set_action,
        ),
        answers_message(
            set,
            codes,
            ClientMessage::StreamImage { request_id: stream_id, level, progressive },
            after,
            action,
        ),
    ensures
        if (before.streams@.len() as u32) < before.max_streams {
            action matches MuxAction::StartStream {
                request_id: id,
                image_id: streamed,
                level: l,
                progressive: p,
            } && id == stream_id && streamed@ == image_id@ && l == level && p == progressive
        } else {
            action matches MuxAction::Fail(reply) && reply.code == ErrorCode::RateLimited
                && reply.request_id == stream_id && reply.retry_after_ms is Some
        },
{
}

/// Only the newest of the tasks that prepare models goes on: the others are given
/// back to be aborted, and once it is registered it is alone.
pub proof fn lemma_only_the_newest_prepare<T>(
    before: ConnectionStreams<T>,
    codes: WireCodes,
    request: PrepareModelRequest,
    after: ConnectionStreams<T>,
    action: MuxAction<T>,
    prepare: ActivePrepare<T>,
)
    requires
        answers_message(
            before,
            codes,
            ClientMessage::PrepareModel {
                request_id: request.request_id,
                model_id: request.model_id,
                image_id: request.image_id,
                config: request.config,
            },
            after,
            action,
        ),
    ensures
        action matches MuxAction::StartPrepare { request: started, aborted } && started == request
            && aborted@ == before.prepares@,
        after.prepares@.insert(request.request_id, prepare).dom() == set![request.request_id],
{
    assert(after.prepares@.insert(request.request_id, prepare).dom()
        =~= set![request.request_id]);
}

/// A cancelled stream is aborted and frees its slot; the other streams go on.
pub proof fn lemma_cancel_frees_a_slot<T>(
    before: ConnectionStreams<T>,
    codes: WireCodes,
    request_id: u32,
    after: ConnectionStreams<T>,
    action: MuxAction<T>,
)
    requires
        answers_message(
            before,
            codes,
            ClientMessage::CancelStream { request_id },
            after,
            action,
        ),
        before.streams@.dom().finite(),
        before.streams@.contains_key(request_id),
    ensures
        action == MuxAction::Abort(before.streams@[request_id].task),
        after.streams@.len() == before.streams@.len() - 1,
        forall|other: u32|
            other != request_id ==> (#[trigger] after.streams@.contains_key(other)
                <==> before.streams@.contains_key(other)) && (before.streams@.contains_key(other)
                ==> after.streams@[other] == before.streams@[other]),
{
}

/// A stream is started only of an image that is set and into a free slot. Without an
/// image the client is told so, and a retry does not help.
pub proof fn lemma_streams_need_an_image<T>(
    streams: ConnectionStreams<T>,
    request_id: u32,
    level: u32,
    progressive: bool,
    action: MuxAction<T>,
)
    requires
        answers_stream(streams, request_id, level, progressive, action),
    ensures
        action is StartStream <==> streams.active_image_id is Some && (streams.streams@.len() as u32)
            < streams.max_streams,
        action is StartStream || action is Fail,
        action matches MuxAction::Fail(reply) ==> reply.request_id == request_id && (reply.code
            == ErrorCode::NoActiveImage <==> streams.active_image_id is None) && (
        reply.retry_after_ms is None <==> streams.active_image_id is None),
{
}

/// What is cached of an image is kept while the image stays the active one, and goes
/// when another is set. Either way the client is told the image's id.
pub proof fn lemma_setting_an_image<T>(
    before: ConnectionStreams<T>,
    codes: WireCodes,
    request_id: u32,
    image_id: String,
    after: ConnectionStreams<T>,
    action: MuxAction<T>,
)
    requires
        answers_message(
            before,
            codes,
            ClientMessage::SetImage { request_id, image_id },
            after,
            action,
        ),
        vstd::utf8::encode_utf8(image_id@).len() <= u16::MAX,
    ensures
        is_text(after.active_image_id, image_id@),
        is_text(before.active_image_id, image_id@) ==> after.cached_image == before.cached_image,
        !is_text(before.active_image_id, image_id@) ==> after.cached_image is None,
        after.streams == before.streams,
        after.prepares == before.prepares,
        after.inferences == before.inferences,
        after.prepared == before.prepared,
        action matches MuxAction::Send(frame) && frame@[1] == codes.image_set
            && crate::bytes::le_value(frame@.subrange(2, 6)) == request_id
            && vstd::utf8::decode_utf8(frame@.skip(8)) == image_id@,
{
    let payload = crate::protocol::prefixed_text(image_id@);
    crate::protocol::lemma_mux_frame_reads_back(
        codes,
        crate::protocol::ServerMessageType::ImageSet,
        request_id,
        payload,
    );
    crate::protocol::lemma_short_text_arrives(image_id@);
    let frame = crate::protocol::mux_frame(
        codes,
        crate::protocol::ServerMessageType::ImageSet,
        request_id,
        payload,
    );
    crate::protocol::lemma_prefixed_text_reads_back(image_id@);
    assert(frame.skip(8) =~= frame.skip(6).skip(2));
}

/// An inference is started exactly where a slot for it is free: with what the client
/// asked for, after the tasks that prepare models were given back to be aborted.
/// Otherwise nothing changes, and the client is told to try again.
pub proof fn lemma_inferences_need_a_slot<T>(
    before: ConnectionStreams<T>,
    codes: WireCodes,
    request: InferModelRequest,
    after: ConnectionStreams<T>,
    action: MuxAction<T>,
)
    requires
        answers_message(
            before,
            codes,
            ClientMessage::Infer {
                request_id: request.request_id,
                model_id: request.model_id,
                image_id: request.image_id,
                inputs: request.inputs,
                options: request.options,
            },
            after,
            action,
        ),
    ensures
        action is StartInference <==> (before.inferences@.len() as u32) < before.max_inferences,
        action matches MuxAction::StartInference { request: started, aborted } ==> started == request
            && aborted@ == before.prepares@ && after.prepares@.dom() == Set::<u32>::empty(),
        !(action is StartInference) ==> after == before && (action matches MuxAction::Fail(reply)
            && reply.code == ErrorCode::ModelBusy && reply.request_id == request.request_id
            && reply.retry_after_ms is Some),
        after.streams == before.streams,
        after.inferences == before.inferences,
{
    assert(Map::<u32, ActivePrepare<T>>::empty().dom() =~= Set::<u32>::empty());
}

/// A cancelled inference is aborted and frees its slot; the other inferences go on.
pub proof fn lemma_cancel_frees_an_inference<T>(
    before: ConnectionStreams<T>,
    codes: WireCodes,
    request_id: u32,
    after: ConnectionStreams<T>,
    action: MuxAction<T>,
)
    requires
        answers_message(
            before,
            codes,
            ClientMessage::CancelInfer { request_id },
            after,
            action,
        ),
        before.inferences@.dom().finite(),
    ensures
        before.inferences@.contains_key(request_id) ==> action == MuxAction::Abort(
            before.inferences@[request_id].task,
        ) && after.inferences@.len() == before.inferences@.len() - 1,
        !before.inferences@.contains_key(request_id) ==> action is Nothing && after.inferences@
            == before.inferences@,
        forall|other: u32|
            other != request_id ==> (#[trigger] after.inferences@.contains_key(other)
                <==> before.inferences@.contains_key(other)) && (before.inferences@.contains_key(
                other,
            ) ==> after.inferences@[other] == before.inferences@[other]),
        after.streams == before.streams,
{
    if !before.inferences@.contains_key(request_id) {
        assert(before.inferences@.remove(request_id) =~= before.inferences@);
    }
}

/// Cancelling what does not run does nothing, and a pong changes nothing.
pub proof fn lemma_idle_messages<T>(
    before: ConnectionStreams<T>,
    codes: WireCodes,
    message: ClientMessage,
    after: ConnectionStreams<T>,
    action: MuxAction<T>,
)
    requires
        answers_message(before, codes, message, after, action),
        match message {
            ClientMessage::CancelStream { request_id } => !before.streams@.contains_key(request_id),
            ClientMessage::Pong { .. } => true,
            _ => false,
        },
    ensures
        action is Nothing,
        after.streams@ == before.streams@,
        after.inferences == before.inferences,
        after.prepares == before.prepares,
        after.active_image_id == before.active_image_id,
{
    if let ClientMessage::CancelStream { request_id } = message {
        assert(before.streams@.remove(request_id) =~= before.streams@);
    }
}

/// A connection without models refuses whatever has to do with inference, changes
/// nothing, and answers everything else as one with models does.
pub proof fn lemma_no_models_no_inference<T>(
    before: ConnectionStreams<T>,
    codes: WireCodes,
    message: ClientMessage,
    after: ConnectionStreams<T>,
    action: MuxAction<T>,
)
    requires
        answers_without_models(before, codes, message, after, action),
    ensures
        !(action is StartPrepare),
        !(action is StartInference),
        message is PrepareModel || message is Infer || message is CancelInfer ==> after == before && (
        action matches MuxAction::Fail(reply) && reply.code == ErrorCode::InvalidAction
            && reply.retry_after_ms is None),
        !(message is PrepareModel || message is Infer || message is CancelInfer)
            ==> answers_message(before, codes, message, after, action),
{
}

/// What is cached is given out of the image that it is of, and of no other.
pub proof fn lemma_cached_image_is_the_one<T>(
    streams: ConnectionStreams<T>,
    data: CachedImageData,
    asked: Seq<char>,
)
    requires
        streams.cached_image == Some(data),
    ensures
        streams.cached(data.image_id@) == Some(data),
        asked != data.image_id@ ==> streams.cached(asked) is None,
{
}

/// Ticks count up from each use to the next, as long as 64 bits hold them.
pub proof fn lemma_ticks_count_up(tick: u64)
    ensures
        tick < u64::MAX ==> next_tick(tick) == tick + 1,
        tick == u64::MAX ==> next_tick(tick) == 0,
{
}

/// What is looked up is an entry of the list under that key; where nothing is found,
/// there is none.
pub proof fn lemma_lookup_finds_entries(entries: Seq<PreparedDimensionsEntry>, key: Seq<char>)
    ensures
        match lookup(entries, key) {
            Some(found) => exists|i: int|
                #![trigger entries[i]]
                0 <= i < entries.len() && entries[i].key@ == key && found == (
                    entries[i].width,
                    entries[i].height,
                    entries[i].last_access_tick,
                ),
            None => forall|i: int| 0 <= i < entries.len() ==> (#[trigger] entries[i]).key@ != key,
        },
    decreases entries.len(),
{
    if lookup(entries, key) is Some {
        let i = lemma_lookup_some(entries, key);
        assert(entries[i].key@ == key);
    } else if entries.len() > 0 {
        lemma_lookup_finds_entries(entries.drop_last(), key);
        assert forall|i: int| 0 <= i < entries.len() implies (#[trigger] entries[i]).key@
            != key by {
            if i < entries.len() - 1 {
                assert(entries.drop_last()[i] == entries[i]);
            }
        }
    }
}

/// Slots are free exactly as long as fewer tasks run than are allowed. What takes one
/// does not exceed the limit.
pub proof fn lemma_slots_keep_the_limits<T>(
    streams: ConnectionStreams<T>,
    request_id: u32,
    stream: ActiveStream<T>,
    inference: ActiveInference<T>,
)
    requires
        streams.streams@.dom().finite(),
        streams.inferences@.dom().finite(),
        streams.streams@.len() <= u32::MAX,
        streams.inferences@.len() <= u32::MAX,
    ensures
        streams.has_stream_slot() <==> streams.streams@.len() < streams.max_streams,
        streams.has_inference_slot() <==> streams.inferences@.len() < streams.max_inferences,
        streams.has_stream_slot() ==> streams.streams@.insert(request_id, stream).len()
            <= streams.max_streams,
        streams.has_inference_slot() ==> streams.inferences@.insert(request_id, inference).len()
            <= streams.max_inferences,
{
}

/// Recording an entry changes what is found under its own key alone, as long as nothing
/// has to go for it.
pub proof fn lemma_recording_leaves_others(
    entries: Seq<PreparedDimensionsEntry>,
    key: Seq<char>,
    width: u32,
    height: u32,
    tick: u64,
    asked: Seq<char>,
)
    ensures
        after_caching(entries, key, width, height, tick, key) == Some((width, height, tick)),
        asked != key ==> after_caching(entries, key, width, height, tick, asked) == lookup(
            entries,
            asked,
        ),
{
}

} // verus!
